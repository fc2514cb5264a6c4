//! The expression parser chain: an ordered set of independent rule-matchers,
//! each consuming a prefix of the remaining words and contributing unit
//! assignments. The first rule that matches wins a round; rule order is part
//! of the contract.

use vstd::prelude::*;

use crate::cron::{CronColumn, CronValue};
use crate::instant::Instant;
use crate::textfmt::{
    all_digits, chars_eq_str, chars_of_lower, chars_range_eq_str, digit_run, digit_run_chars,
    digits_val, digits_value_chars, lemma_digit_run_facts, lemma_short_digits_val, lower_seq,
};
use crate::DateFormat;

verus! {

/// What one parser rule contributes: unit assignments, and the position of
/// the first word it did not consume.
#[derive(Debug)]
pub struct ParseUpdate {
    pub cron_updates: Vec<(CronColumn, CronValue)>,
    pub new_pos: usize,
}

impl ParseUpdate {
    /// The update as its mathematical content.
    pub open spec fn view_up(self) -> (Seq<(CronColumn, CronValue)>, int) {
        (self.cron_updates@, self.new_pos as int)
    }
}

/// The day-of-month word and what introduced it: an optional leading
/// "on the" or "the", then the word itself, folded to lowercase.
pub open spec fn spec_day_word(ws: Seq<Seq<char>>, pos: int) -> Option<(Seq<char>, int, bool)> {
    if pos + 3 <= ws.len() && ws[pos] == "on"@ && ws[pos + 1] == "the"@ {
        Some((lower_seq(ws[pos + 2]), pos + 3, true))
    } else if pos + 2 <= ws.len() && ws[pos] == "the"@ {
        Some((lower_seq(ws[pos + 1]), pos + 2, true))
    } else if pos + 1 <= ws.len() {
        Some((lower_seq(ws[pos]), pos + 1, false))
    } else {
        None
    }
}

/// Whether a lowercase word is an ordinal suffix.
pub open spec fn is_ordinal_suffix(s: Seq<char>) -> bool {
    s == "st"@ || s == "nd"@ || s == "rd"@ || s == "th"@
}

/// The day-of-month rule: one or two digits with an optional ordinal
/// suffix, accepted only with a preposition or a suffix — a bare number is
/// ambiguous and left to later rules.
pub open spec fn spec_try_parse_day(ws: Seq<Seq<char>>, pos: int) -> Option<
    (Seq<(CronColumn, CronValue)>, int),
> {
    match spec_day_word(ws, pos) {
        None => None,
        Some((lw, p2, prep)) => {
            let k = digit_run(lw, 0);
            let has_suffix = k < lw.len();
            if 1 <= k <= 2 && (!has_suffix || is_ordinal_suffix(lw.skip(k))) && (prep
                || has_suffix) {
                Some(
                    (
                        seq![
                            (
                                CronColumn::Day,
                                CronValue::On(digits_val(lw.subrange(0, k)) as u64),
                            ),
                        ],
                        p2,
                    ),
                )
            } else {
                None
            }
        },
    }
}

/// The day-of-month rule.
pub fn try_parse_day(words: &Vec<String>, pos: usize) -> (r: Option<ParseUpdate>)
    requires
        pos <= words@.len(),
    ensures
        r is Some <==> spec_try_parse_day(words.deep_view(), pos as int) is Some,
        r is Some ==> r->Some_0.view_up() == spec_try_parse_day(
            words.deep_view(),
            pos as int,
        )->Some_0,
        r is Some ==> pos < r->Some_0.new_pos <= words@.len(),
{
    let ghost ws = words.deep_view();
    let n = words.len();
    let (wi, p2, prep): (usize, usize, bool) = if n - pos >= 3 && str_is(&words[pos], "on")
        && str_is(&words[pos + 1], "the") {
        (pos + 2, pos + 3, true)
    } else if n - pos >= 2 && str_is(&words[pos], "the") {
        (pos + 1, pos + 2, true)
    } else if pos < n {
        (pos, pos + 1, false)
    } else {
        return None;
    };
    let cs = chars_of_lower(words[wi].as_str());
    let ghost lw = lower_seq(ws[wi as int]);
    assert(cs@ == lw);
    let k = digit_run_chars(&cs, 0);
    proof {
        lemma_digit_run_facts(lw, 0);
    }
    if k < 1 || k > 2 {
        return None;
    }
    let has_suffix = k < cs.len();
    if has_suffix {
        let ord = chars_range_eq_str(&cs, k, "st") || chars_range_eq_str(&cs, k, "nd")
            || chars_range_eq_str(&cs, k, "rd") || chars_range_eq_str(&cs, k, "th");
        if !ord {
            return None;
        }
    }
    if !(prep || has_suffix) {
        return None;
    }
    proof {
        lemma_short_digits_val(lw.subrange(0, k as int));
    }
    let day = digits_value_chars(&cs, 0, k).unwrap();
    let mut ups: Vec<(CronColumn, CronValue)> = Vec::new();
    ups.push((CronColumn::Day, CronValue::On(day)));
    proof {
        assert(ups@ =~= spec_try_parse_day(ws, pos as int)->Some_0.0);
    }
    Some(ParseUpdate { cron_updates: ups, new_pos: p2 })
}

/// Whether a word equals a literal, character for character.
fn str_is(w: &String, lit: &str) -> (r: bool)
    ensures
        r == (w@ == lit@),
{
    crate::textfmt::str_eq(w.as_str(), lit)
}

/// The assignments that fix a whole instant, in significance order.
pub open spec fn spec_full_updates(t: Instant) -> Seq<(CronColumn, CronValue)> {
    seq![
        (CronColumn::Minute, CronValue::On(t.minute)),
        (CronColumn::Hour, CronValue::On(t.hour)),
        (CronColumn::Day, CronValue::On(t.day)),
        (CronColumn::Month, CronValue::On(t.month)),
        (CronColumn::Year, CronValue::On(t.year)),
    ]
}

/// The assignments that fix an instant's date, in significance order.
pub open spec fn spec_date_updates(t: Instant) -> Seq<(CronColumn, CronValue)> {
    seq![
        (CronColumn::Day, CronValue::On(t.day)),
        (CronColumn::Month, CronValue::On(t.month)),
        (CronColumn::Year, CronValue::On(t.year)),
    ]
}

/// Builds the assignments that fix a whole instant.
fn full_updates(t: &Instant) -> (r: Vec<(CronColumn, CronValue)>)
    ensures
        r@ == spec_full_updates(*t),
{
    let mut ups: Vec<(CronColumn, CronValue)> = Vec::new();
    ups.push((CronColumn::Minute, CronValue::On(t.minute)));
    ups.push((CronColumn::Hour, CronValue::On(t.hour)));
    ups.push((CronColumn::Day, CronValue::On(t.day)));
    ups.push((CronColumn::Month, CronValue::On(t.month)));
    ups.push((CronColumn::Year, CronValue::On(t.year)));
    proof {
        assert(ups@ =~= spec_full_updates(*t));
    }
    ups
}

/// Builds the assignments that fix an instant's date.
fn date_updates(t: &Instant) -> (r: Vec<(CronColumn, CronValue)>)
    ensures
        r@ == spec_date_updates(*t),
{
    let mut ups: Vec<(CronColumn, CronValue)> = Vec::new();
    ups.push((CronColumn::Day, CronValue::On(t.day)));
    ups.push((CronColumn::Month, CronValue::On(t.month)));
    ups.push((CronColumn::Year, CronValue::On(t.year)));
    proof {
        assert(ups@ =~= spec_date_updates(*t));
    }
    ups
}

/// Minutes one duration unit stands for, or zero for no unit: `m`, `min`,
/// `minute`, `minutes`; `h`, `hour`, `hours`; `d`, `day`, `days`; `w`,
/// `week`, `weeks`.
pub open spec fn spec_unit_minutes(s: Seq<char>) -> u64 {
    if s == "m"@ || s == "min"@ || s == "minute"@ || s == "minutes"@ {
        1
    } else if s == "h"@ || s == "hour"@ || s == "hours"@ {
        60
    } else if s == "d"@ || s == "day"@ || s == "days"@ {
        1440
    } else if s == "w"@ || s == "week"@ || s == "weeks"@ {
        10080
    } else {
        0
    }
}

/// Minutes one duration unit stands for, matched on lowered characters.
fn unit_minutes_of(cs: &Vec<char>, from: usize) -> (r: u64)
    requires
        from <= cs@.len(),
    ensures
        r == spec_unit_minutes(cs@.skip(from as int)),
{
    if chars_range_eq_str(cs, from, "m") || chars_range_eq_str(cs, from, "min")
        || chars_range_eq_str(cs, from, "minute") || chars_range_eq_str(cs, from, "minutes") {
        1
    } else if chars_range_eq_str(cs, from, "h") || chars_range_eq_str(cs, from, "hour")
        || chars_range_eq_str(cs, from, "hours") {
        60
    } else if chars_range_eq_str(cs, from, "d") || chars_range_eq_str(cs, from, "day")
        || chars_range_eq_str(cs, from, "days") {
        1440
    } else if chars_range_eq_str(cs, from, "w") || chars_range_eq_str(cs, from, "week")
        || chars_range_eq_str(cs, from, "weeks") {
        10080
    } else {
        0
    }
}

/// The relative-duration rule, as far as its words go: "in", then a token
/// beginning with digits, the unit suffix either right after the digits or
/// as the next word (then consumed). Yields the number, the minutes of the
/// unit, and the next position; the number must fit a signed 64-bit count.
pub open spec fn spec_duration_words(ws: Seq<Seq<char>>, pos: int) -> Option<(int, u64, int)> {
    if pos + 2 <= ws.len() && ws[pos] == "in"@ {
        let w = ws[pos + 1];
        let k = digit_run(w, 0);
        if k == 0 {
            None
        } else {
            let value = digits_val(w.subrange(0, k));
            if value > 0x7fff_ffff_ffff_ffff {
                None
            } else {
                let f1 = spec_unit_minutes(lower_seq(w).skip(k));
                if f1 > 0 {
                    Some((value, f1, pos + 2))
                } else {
                    if pos + 3 <= ws.len() {
                        let f2 = spec_unit_minutes(lower_seq(ws[pos + 2]));
                        if f2 > 0 {
                            Some((value, f2, pos + 3))
                        } else {
                            None
                        }
                    } else {
                        None
                    }
                }
            }
        }
    } else {
        None
    }
}

/// The relative-duration rule: "in N <unit>" resolves to `now` plus the
/// duration and fixes the whole instant, all five units at once. Durations
/// that would leave the four-digit year range are rejected.
pub open spec fn spec_try_parse_duration(ws: Seq<Seq<char>>, pos: int, now: Instant) -> Option<
    (Seq<(CronColumn, CronValue)>, int),
> {
    match spec_duration_words(ws, pos) {
        None => None,
        Some((value, factor, p2)) => {
            if value * factor > crate::instant::MAX_ADD_MINUTES {
                None
            } else {
                let t = now.spec_plus_minutes((value * factor) as nat);
                if t.year > crate::instant::MAX_YEAR {
                    None
                } else {
                    Some((spec_full_updates(t), p2))
                }
            }
        },
    }
}

/// The relative-duration rule.
pub fn try_parse_duration(words: &Vec<String>, pos: usize, now: &Instant) -> (r: Option<
    ParseUpdate,
>)
    requires
        pos <= words@.len(),
        now.valid(),
    ensures
        r is Some <==> spec_try_parse_duration(words.deep_view(), pos as int, *now) is Some,
        r is Some ==> r->Some_0.view_up() == spec_try_parse_duration(
            words.deep_view(),
            pos as int,
            *now,
        )->Some_0,
        r is Some ==> pos < r->Some_0.new_pos <= words@.len(),
{
    let ghost ws = words.deep_view();
    let n = words.len();
    if !(n - pos >= 2 && str_is(&words[pos], "in")) {
        return None;
    }
    let cs = crate::textfmt::chars_of(words[pos + 1].as_str());
    let ghost w = ws[pos + 1];
    assert(cs@ == w);
    let k = digit_run_chars(&cs, 0);
    proof {
        lemma_digit_run_facts(w, 0);
    }
    if k == 0 {
        return None;
    }
    let value = match digits_value_chars(&cs, 0, k) {
        Option::Some(v) => v,
        Option::None => {
            return None;
        },
    };
    if value > 0x7fff_ffff_ffff_ffff {
        return None;
    }
    // The unit suffix: in the word itself, else as the next word.
    let lcs = chars_of_lower(words[pos + 1].as_str());
    assert(lcs@.len() == w.len());
    let f1 = unit_minutes_of(&lcs, k);
    let (factor, p2): (u64, usize) = if f1 > 0 {
        (f1, pos + 2)
    } else if n - pos >= 3 {
        let nx = chars_of_lower(words[pos + 2].as_str());
        let f2 = unit_minutes_of(&nx, 0);
        proof {
            assert(nx@.skip(0) =~= nx@);
        }
        if f2 > 0 {
            (f2, pos + 3)
        } else {
            return None;
        }
    } else {
        return None;
    };
    // The whole duration in minutes, rejected when it could leave the
    // four-digit year range.
    if value > crate::instant::MAX_ADD_MINUTES / factor {
        proof {
            let m = crate::instant::MAX_ADD_MINUTES as int;
            assert(value * factor > m) by (nonlinear_arith)
                requires
                    value > m / (factor as int),
                    factor >= 1,
                    m >= 0,
            ;
        }
        return None;
    }
    proof {
        let m = crate::instant::MAX_ADD_MINUTES as int;
        assert(value * factor <= m) by (nonlinear_arith)
            requires
                value <= m / (factor as int),
                factor >= 1,
                m >= 0,
        ;
        assert(value * factor >= 0) by (nonlinear_arith)
            requires
                value >= 0,
                factor >= 0,
        ;
    }
    let total: u64 = value * factor;
    let t = match crate::instant::add_minutes(now, total) {
        Option::Some(t) => t,
        Option::None => {
            return None;
        },
    };
    let ups = full_updates(&t);
    Some(ParseUpdate { cron_updates: ups, new_pos: p2 })
}

/// The month number a lowercase word names, or zero when it names none.
pub open spec fn spec_month_number(lw: Seq<char>) -> u64 {
    if lw == "january"@ {
        1
    } else if lw == "february"@ {
        2
    } else if lw == "march"@ {
        3
    } else if lw == "april"@ {
        4
    } else if lw == "may"@ {
        5
    } else if lw == "june"@ {
        6
    } else if lw == "july"@ {
        7
    } else if lw == "august"@ {
        8
    } else if lw == "september"@ {
        9
    } else if lw == "october"@ {
        10
    } else if lw == "november"@ {
        11
    } else if lw == "december"@ {
        12
    } else {
        0
    }
}

/// A word with an optional leading "in" or "on".
pub open spec fn spec_in_on_word(ws: Seq<Seq<char>>, pos: int) -> Option<(Seq<char>, int)> {
    if pos + 2 <= ws.len() && (ws[pos] == "in"@ || ws[pos] == "on"@) {
        Some((ws[pos + 1], pos + 2))
    } else if pos + 1 <= ws.len() {
        Some((ws[pos], pos + 1))
    } else {
        None
    }
}

/// The month-name rule: a full English month name, case-insensitive, with
/// an optional leading "in" or "on".
pub open spec fn spec_try_parse_month(ws: Seq<Seq<char>>, pos: int) -> Option<
    (Seq<(CronColumn, CronValue)>, int),
> {
    match spec_in_on_word(ws, pos) {
        None => None,
        Some((w, p2)) => {
            let m = spec_month_number(lower_seq(w));
            if m > 0 {
                Some((seq![(CronColumn::Month, CronValue::On(m))], p2))
            } else {
                None
            }
        },
    }
}

/// The month-name rule.
pub fn try_parse_month(words: &Vec<String>, pos: usize) -> (r: Option<ParseUpdate>)
    requires
        pos <= words@.len(),
    ensures
        r is Some <==> spec_try_parse_month(words.deep_view(), pos as int) is Some,
        r is Some ==> r->Some_0.view_up() == spec_try_parse_month(
            words.deep_view(),
            pos as int,
        )->Some_0,
        r is Some ==> pos < r->Some_0.new_pos <= words@.len(),
{
    let ghost ws = words.deep_view();
    let n = words.len();
    let (wi, p2): (usize, usize) = if n - pos >= 2 && (str_is(&words[pos], "in") || str_is(
        &words[pos],
        "on",
    )) {
        (pos + 1, pos + 2)
    } else if pos < n {
        (pos, pos + 1)
    } else {
        return None;
    };
    let cs = chars_of_lower(words[wi].as_str());
    let m: u64 = if chars_eq_str(&cs, "january") {
        1
    } else if chars_eq_str(&cs, "february") {
        2
    } else if chars_eq_str(&cs, "march") {
        3
    } else if chars_eq_str(&cs, "april") {
        4
    } else if chars_eq_str(&cs, "may") {
        5
    } else if chars_eq_str(&cs, "june") {
        6
    } else if chars_eq_str(&cs, "july") {
        7
    } else if chars_eq_str(&cs, "august") {
        8
    } else if chars_eq_str(&cs, "september") {
        9
    } else if chars_eq_str(&cs, "october") {
        10
    } else if chars_eq_str(&cs, "november") {
        11
    } else if chars_eq_str(&cs, "december") {
        12
    } else {
        0
    };
    if m == 0 {
        return None;
    }
    let mut ups: Vec<(CronColumn, CronValue)> = Vec::new();
    ups.push((CronColumn::Month, CronValue::On(m)));
    proof {
        assert(ups@ =~= spec_try_parse_month(ws, pos as int)->Some_0.0);
    }
    Some(ParseUpdate { cron_updates: ups, new_pos: p2 })
}

/// A word with an optional leading "in".
pub open spec fn spec_in_word(ws: Seq<Seq<char>>, pos: int) -> Option<(Seq<char>, int)> {
    if pos + 2 <= ws.len() && ws[pos] == "in"@ {
        Some((ws[pos + 1], pos + 2))
    } else if pos + 1 <= ws.len() {
        Some((ws[pos], pos + 1))
    } else {
        None
    }
}

/// The four-digit-year rule, with an optional leading "in".
pub open spec fn spec_try_parse_year(ws: Seq<Seq<char>>, pos: int) -> Option<
    (Seq<(CronColumn, CronValue)>, int),
> {
    match spec_in_word(ws, pos) {
        None => None,
        Some((w, p2)) => {
            if w.len() == 4 && digit_run(w, 0) == 4 {
                Some((seq![(CronColumn::Year, CronValue::On(digits_val(w) as u64))], p2))
            } else {
                None
            }
        },
    }
}

/// The four-digit-year rule.
pub fn try_parse_year(words: &Vec<String>, pos: usize) -> (r: Option<ParseUpdate>)
    requires
        pos <= words@.len(),
    ensures
        r is Some <==> spec_try_parse_year(words.deep_view(), pos as int) is Some,
        r is Some ==> r->Some_0.view_up() == spec_try_parse_year(
            words.deep_view(),
            pos as int,
        )->Some_0,
        r is Some ==> pos < r->Some_0.new_pos <= words@.len(),
{
    let ghost ws = words.deep_view();
    let n = words.len();
    let (wi, p2): (usize, usize) = if n - pos >= 2 && str_is(&words[pos], "in") {
        (pos + 1, pos + 2)
    } else if pos < n {
        (pos, pos + 1)
    } else {
        return None;
    };
    let cs = crate::textfmt::chars_of(words[wi].as_str());
    let k = digit_run_chars(&cs, 0);
    if !(cs.len() == 4 && k == 4) {
        return None;
    }
    proof {
        lemma_digit_run_facts(cs@, 0);
        assert(cs@.subrange(0, 4) =~= cs@);
        lemma_short_digits_val(cs@);
    }
    let y = digits_value_chars(&cs, 0, 4).unwrap();
    let mut ups: Vec<(CronColumn, CronValue)> = Vec::new();
    ups.push((CronColumn::Year, CronValue::On(y)));
    proof {
        assert(ups@ =~= spec_try_parse_year(ws, pos as int)->Some_0.0);
    }
    Some(ParseUpdate { cron_updates: ups, new_pos: p2 })
}

/// A word with an optional leading "at".
pub open spec fn spec_at_word(ws: Seq<Seq<char>>, pos: int) -> Option<(Seq<char>, int, bool)> {
    if pos + 2 <= ws.len() && ws[pos] == "at"@ {
        Some((ws[pos + 1], pos + 2, true))
    } else if pos + 1 <= ws.len() {
        Some((ws[pos], pos + 1, false))
    } else {
        None
    }
}

/// The shape of a clock-time word `H[:MM][am|pm]`, lowercased: the hour
/// digits, the minute digits if a colon follows, and where the am/pm
/// marker would start.
pub open spec fn spec_clock_shape(lw: Seq<char>) -> Option<(int, Option<int>, int)> {
    let k = digit_run(lw, 0);
    if !(1 <= k <= 2) {
        None
    } else if k < lw.len() && lw[k] == ':' {
        let k2 = digit_run(lw, k + 1);
        if 1 <= k2 <= 2 {
            Some((k, Some(k + 1 + k2), k + 1 + k2))
        } else {
            None
        }
    } else {
        Some((k, None, k))
    }
}

/// The clock-time rule: `H[:MM][am|pm]`, the am/pm marker possibly in the
/// next word, with an optional leading "at". An hour of 24 or more is
/// always rejected; with am/pm the hour must be at most 12 and is mapped to
/// 24-hour form; the minute defaults to zero. Accepted only with a
/// preposition, a colon or an am/pm marker — a bare number is left to
/// other rules.
pub open spec fn spec_try_parse_clocktime(ws: Seq<Seq<char>>, pos: int) -> Option<
    (Seq<(CronColumn, CronValue)>, int),
> {
    match spec_at_word(ws, pos) {
        None => None,
        Some((tw, p2, prep)) => {
            let lw = lower_seq(tw);
            match spec_clock_shape(lw) {
                None => None,
                Some((k, mins, idx)) => {
                    let sfx = lw.skip(idx);
                    let has_colon = mins is Some;
                    // The am/pm marker: in the word itself, or as the next
                    // separate word, which is then consumed.
                    let word_mark: Option<Seq<char>> = if sfx == "am"@ || sfx == "pm"@ {
                        Some(sfx)
                    } else {
                        None
                    };
                    if sfx.len() > 0 && word_mark is None {
                        None
                    } else {
                        let next_mark: Option<Seq<char>> = if p2 < ws.len() && (lower_seq(ws[p2])
                            == "am"@ || lower_seq(ws[p2]) == "pm"@) {
                            Some(lower_seq(ws[p2]))
                        } else {
                            None
                        };
                        let mark: Option<Seq<char>> = if word_mark is Some {
                            word_mark
                        } else {
                            next_mark
                        };
                        let p3: int = if word_mark is None && next_mark is Some {
                            p2 + 1
                        } else {
                            p2
                        };
                        let raw = digits_val(lw.subrange(0, k));
                        if raw >= 24 {
                            None
                        } else {
                            let hour: Option<int> = match mark {
                                Option::Some(s) => if s == "am"@ && raw <= 12 {
                                    Some(raw % 12)
                                } else if s == "pm"@ && raw <= 12 {
                                    Some(raw % 12 + 12)
                                } else {
                                    None
                                },
                                Option::None => Some(raw),
                            };
                            match hour {
                                Option::None => None,
                                Option::Some(h) => {
                                    let minute: int = match mins {
                                        Option::Some(e) => digits_val(lw.subrange(k + 1, e)),
                                        Option::None => 0,
                                    };
                                    if prep || has_colon || mark is Some {
                                        Some(
                                            (
                                                seq![
                                                    (CronColumn::Hour, CronValue::On(h as u64)),
                                                    (
                                                        CronColumn::Minute,
                                                        CronValue::On(minute as u64),
                                                    ),
                                                ],
                                                p3,
                                            ),
                                        )
                                    } else {
                                        None
                                    }
                                },
                            }
                        }
                    }
                },
            }
        },
    }
}

/// The clock-time rule.
pub fn try_parse_clocktime(words: &Vec<String>, pos: usize) -> (r: Option<ParseUpdate>)
    requires
        pos <= words@.len(),
    ensures
        r is Some <==> spec_try_parse_clocktime(words.deep_view(), pos as int) is Some,
        r is Some ==> r->Some_0.view_up() == spec_try_parse_clocktime(
            words.deep_view(),
            pos as int,
        )->Some_0,
        r is Some ==> pos < r->Some_0.new_pos <= words@.len(),
{
    let ghost ws = words.deep_view();
    let n = words.len();
    let (wi, p2, prep): (usize, usize, bool) = if n - pos >= 2 && str_is(&words[pos], "at") {
        (pos + 1, pos + 2, true)
    } else if pos < n {
        (pos, pos + 1, false)
    } else {
        return None;
    };
    let cs = chars_of_lower(words[wi].as_str());
    let ghost lw = lower_seq(ws[wi as int]);
    assert(cs@ == lw);
    let k = digit_run_chars(&cs, 0);
    proof {
        lemma_digit_run_facts(lw, 0);
    }
    if k < 1 || k > 2 {
        return None;
    }
    // The optional `:MM` group.
    let (mins_end, idx): (Option<usize>, usize) = if k < cs.len() && cs[k] == ':' {
        let k2 = digit_run_chars(&cs, k + 1);
        proof {
            lemma_digit_run_facts(lw, k + 1);
        }
        if k2 < 1 || k2 > 2 {
            return None;
        }
        (Some(k + 1 + k2), k + 1 + k2)
    } else {
        (None, k)
    };
    let has_colon = mins_end.is_some();
    // The am/pm marker inside the word.
    let word_mark: Option<bool> = if chars_range_eq_str(&cs, idx, "am") {
        Some(false)
    } else if chars_range_eq_str(&cs, idx, "pm") {
        Some(true)
    } else {
        None
    };
    if idx < cs.len() && word_mark.is_none() {
        return None;
    }
    // The am/pm marker as the next separate word.
    let mut p3 = p2;
    let mark: Option<bool> = if word_mark.is_some() {
        word_mark
    } else if p2 < n {
        let nx = chars_of_lower(words[p2].as_str());
        if chars_eq_str(&nx, "am") {
            p3 = p2 + 1;
            Some(false)
        } else if chars_eq_str(&nx, "pm") {
            p3 = p2 + 1;
            Some(true)
        } else {
            None
        }
    } else {
        None
    };
    proof {
        lemma_short_digits_val(lw.subrange(0, k as int));
    }
    let raw = digits_value_chars(&cs, 0, k).unwrap();
    if raw >= 24 {
        return None;
    }
    let hour: u64 = match mark {
        Option::Some(false) => {
            if raw <= 12 {
                raw % 12
            } else {
                return None;
            }
        },
        Option::Some(true) => {
            if raw <= 12 {
                raw % 12 + 12
            } else {
                return None;
            }
        },
        Option::None => raw,
    };
    let minute: u64 = match mins_end {
        Option::Some(e) => {
            proof {
                lemma_short_digits_val(lw.subrange(k + 1 as int, e as int));
            }
            digits_value_chars(&cs, k + 1, e).unwrap()
        },
        Option::None => 0,
    };
    if !(prep || has_colon || mark.is_some()) {
        return None;
    }
    let mut ups: Vec<(CronColumn, CronValue)> = Vec::new();
    ups.push((CronColumn::Hour, CronValue::On(hour)));
    ups.push((CronColumn::Minute, CronValue::On(minute)));
    proof {
        assert(ups@ =~= spec_try_parse_clocktime(ws, pos as int)->Some_0.0);
    }
    Some(ParseUpdate { cron_updates: ups, new_pos: p3 })
}

/// The "every <unit>" rule: an optional leading "on", the literal "every",
/// then a unit name; the unit becomes a wildcard. An hourly reminder fires
/// on the hour, so "every hour" additionally fixes the minute to zero.
pub open spec fn spec_try_parse_every(ws: Seq<Seq<char>>, pos: int) -> Option<
    (Seq<(CronColumn, CronValue)>, int),
> {
    let q = if pos < ws.len() && ws[pos] == "on"@ {
        pos + 1
    } else {
        pos
    };
    if q + 2 <= ws.len() && ws[q] == "every"@ {
        let w2 = ws[q + 1];
        if w2 == "hour"@ {
            Some(
                (
                    seq![
                        (CronColumn::Hour, CronValue::Every),
                        (CronColumn::Minute, CronValue::On(0u64)),
                    ],
                    q + 2,
                ),
            )
        } else if w2 == "minute"@ {
            Some((seq![(CronColumn::Minute, CronValue::Every)], q + 2))
        } else if w2 == "day"@ {
            Some((seq![(CronColumn::Day, CronValue::Every)], q + 2))
        } else if w2 == "month"@ {
            Some((seq![(CronColumn::Month, CronValue::Every)], q + 2))
        } else if w2 == "year"@ {
            Some((seq![(CronColumn::Year, CronValue::Every)], q + 2))
        } else {
            None
        }
    } else {
        None
    }
}

/// The numeric-date word: an optional leading "on the" or "on", then the
/// word itself, kept as written.
pub open spec fn spec_date_word(ws: Seq<Seq<char>>, pos: int) -> Option<(Seq<char>, int)> {
    if pos + 3 <= ws.len() && ws[pos] == "on"@ && ws[pos + 1] == "the"@ {
        Some((ws[pos + 2], pos + 3))
    } else if pos + 2 <= ws.len() && ws[pos] == "on"@ {
        Some((ws[pos + 1], pos + 2))
    } else if pos + 1 <= ws.len() {
        Some((ws[pos], pos + 1))
    } else {
        None
    }
}

/// The shape of a numeric date `D/M` or `D/M/YYYY`: the two digit groups
/// and the year group when present.
pub open spec fn spec_date_shape(w: Seq<char>) -> Option<(int, int, Option<int>)> {
    let k1 = digit_run(w, 0);
    if !(1 <= k1 <= 2 && k1 < w.len() && w[k1] == '/') {
        None
    } else {
        let k2 = digit_run(w, k1 + 1);
        if !(1 <= k2 <= 2) {
            None
        } else {
            let e = k1 + 1 + k2;
            if e == w.len() {
                Some((k1, k2, None))
            } else if w[e] == '/' && digit_run(w, e + 1) == 4 && e + 5 == w.len() {
                Some((k1, k2, Some(e + 1)))
            } else {
                None
            }
        }
    }
}

/// The numeric-date rule: `D/M` or `D/M/YYYY`, day and month in the order
/// the date format gives, the year assigned too when present.
pub open spec fn spec_try_parse_date_digits(ws: Seq<Seq<char>>, pos: int, df: DateFormat) -> Option<
    (Seq<(CronColumn, CronValue)>, int),
> {
    match spec_date_word(ws, pos) {
        None => None,
        Some((w, p2)) => match spec_date_shape(w) {
            None => None,
            Some((k1, k2, year_at)) => {
                let d1 = digits_val(w.subrange(0, k1));
                let d2 = digits_val(w.subrange(k1 + 1, k1 + 1 + k2));
                let day: int = if df == DateFormat::DMY {
                    d1
                } else {
                    d2
                };
                let month: int = if df == DateFormat::DMY {
                    d2
                } else {
                    d1
                };
                let base = seq![
                    (CronColumn::Day, CronValue::On(day as u64)),
                    (CronColumn::Month, CronValue::On(month as u64)),
                ];
                match year_at {
                    Option::None => Some((base, p2)),
                    Option::Some(ys) => Some(
                        (
                            base.push(
                                (
                                    CronColumn::Year,
                                    CronValue::On(digits_val(w.subrange(ys, ys + 4)) as u64),
                                ),
                            ),
                            p2,
                        ),
                    ),
                }
            },
        },
    }
}

/// The numeric-date rule.
#[verifier::rlimit(50)]
pub fn try_parse_date_digits(words: &Vec<String>, pos: usize, date_format: DateFormat) -> (r:
    Option<ParseUpdate>)
    requires
        pos <= words@.len(),
    ensures
        r is Some <==> spec_try_parse_date_digits(words.deep_view(), pos as int, date_format)
            is Some,
        r is Some ==> r->Some_0.view_up() == spec_try_parse_date_digits(
            words.deep_view(),
            pos as int,
            date_format,
        )->Some_0,
        r is Some ==> pos < r->Some_0.new_pos <= words@.len(),
{
    let ghost ws = words.deep_view();
    let n = words.len();
    let (wi, p2): (usize, usize) = if n - pos >= 3 && str_is(&words[pos], "on") && str_is(
        &words[pos + 1],
        "the",
    ) {
        (pos + 2, pos + 3)
    } else if n - pos >= 2 && str_is(&words[pos], "on") {
        (pos + 1, pos + 2)
    } else if pos < n {
        (pos, pos + 1)
    } else {
        return None;
    };
    let cs = crate::textfmt::chars_of(words[wi].as_str());
    let ghost w = ws[wi as int];
    assert(cs@ == w);
    let k1 = digit_run_chars(&cs, 0);
    proof {
        lemma_digit_run_facts(w, 0);
    }
    if !(1 <= k1 && k1 <= 2 && k1 < cs.len() && cs[k1] == '/') {
        return None;
    }
    let k2 = digit_run_chars(&cs, k1 + 1);
    proof {
        lemma_digit_run_facts(w, k1 + 1);
    }
    if !(1 <= k2 && k2 <= 2) {
        return None;
    }
    let e = k1 + 1 + k2;
    let year_at: Option<usize> = if e == cs.len() {
        None
    } else {
        if cs[e] == '/' {
            let k3 = digit_run_chars(&cs, e + 1);
            proof {
                lemma_digit_run_facts(w, e + 1);
            }
            if k3 == 4 && e + 5 == cs.len() {
                Some(e + 1)
            } else {
                return None;
            }
        } else {
            return None;
        }
    };
    proof {
        lemma_short_digits_val(w.subrange(0, k1 as int));
        lemma_short_digits_val(w.subrange(k1 + 1 as int, k1 + 1 + k2 as int));
    }
    let d1 = digits_value_chars(&cs, 0, k1).unwrap();
    let d2 = digits_value_chars(&cs, k1 + 1, e).unwrap();
    let (day, month): (u64, u64) = match date_format {
        DateFormat::DMY => (d1, d2),
        DateFormat::MDY => (d2, d1),
    };
    let mut ups: Vec<(CronColumn, CronValue)> = Vec::new();
    ups.push((CronColumn::Day, CronValue::On(day)));
    ups.push((CronColumn::Month, CronValue::On(month)));
    match year_at {
        Option::Some(ys) => {
            proof {
                lemma_short_digits_val(w.subrange(ys as int, ys + 4 as int));
            }
            let y = digits_value_chars(&cs, ys, ys + 4).unwrap();
            ups.push((CronColumn::Year, CronValue::On(y)));
        },
        Option::None => {},
    }
    proof {
        assert(ups@ =~= spec_try_parse_date_digits(ws, pos as int, date_format)->Some_0.0);
    }
    Some(ParseUpdate { cron_updates: ups, new_pos: p2 })
}

/// The relative-day rule: the bare words "today" and "tomorrow", resolved
/// to the reference instant's date plus zero or one day; only the date
/// units are assigned.
pub open spec fn spec_try_parse_relative(ws: Seq<Seq<char>>, pos: int, now: Instant) -> Option<
    (Seq<(CronColumn, CronValue)>, int),
> {
    if pos < ws.len() && ws[pos] == "today"@ {
        Some((spec_date_updates(now), pos + 1))
    } else if pos < ws.len() && ws[pos] == "tomorrow"@ {
        let t = now.spec_plus_days(1);
        if t.year > crate::instant::MAX_YEAR {
            None
        } else {
            Some((spec_date_updates(t), pos + 1))
        }
    } else {
        None
    }
}

/// The relative-day rule.
pub fn try_parse_relative(words: &Vec<String>, pos: usize, now: &Instant) -> (r: Option<
    ParseUpdate,
>)
    requires
        pos <= words@.len(),
        now.valid(),
    ensures
        r is Some <==> spec_try_parse_relative(words.deep_view(), pos as int, *now) is Some,
        r is Some ==> r->Some_0.view_up() == spec_try_parse_relative(
            words.deep_view(),
            pos as int,
            *now,
        )->Some_0,
        r is Some ==> pos < r->Some_0.new_pos <= words@.len(),
{
    let ghost ws = words.deep_view();
    if pos >= words.len() {
        return None;
    }
    if str_is(&words[pos], "today") {
        let ups = date_updates(now);
        Some(ParseUpdate { cron_updates: ups, new_pos: pos + 1 })
    } else if str_is(&words[pos], "tomorrow") {
        match crate::instant::add_days(now, 1) {
            Option::Some(t) => {
                let ups = date_updates(&t);
                Some(ParseUpdate { cron_updates: ups, new_pos: pos + 1 })
            },
            Option::None => None,
        }
    } else {
        None
    }
}

/// The weekday number a lowercase word names, from Monday as 0 to Sunday
/// as 6, or seven when it names none.
pub open spec fn spec_weekday_number(lw: Seq<char>) -> u64 {
    if lw == "monday"@ {
        0
    } else if lw == "tuesday"@ {
        1
    } else if lw == "wednesday"@ {
        2
    } else if lw == "thursday"@ {
        3
    } else if lw == "friday"@ {
        4
    } else if lw == "saturday"@ {
        5
    } else if lw == "sunday"@ {
        6
    } else {
        7
    }
}

/// A word with an optional leading "on".
pub open spec fn spec_on_word(ws: Seq<Seq<char>>, pos: int) -> Option<(Seq<char>, int)> {
    if pos + 2 <= ws.len() && ws[pos] == "on"@ {
        Some((ws[pos + 1], pos + 2))
    } else if pos + 1 <= ws.len() {
        Some((ws[pos], pos + 1))
    } else {
        None
    }
}

/// Days ahead to the named weekday: the smallest positive offset, so the
/// same weekday resolves to seven days ahead, never to the same day.
pub open spec fn spec_weekday_offset(current: int, event: int) -> int {
    if current < event {
        event - current
    } else {
        7 - (current - event)
    }
}

/// The weekday-name rule: a full English weekday name, case-insensitive,
/// with an optional leading "on"; resolves to the next such weekday after
/// the reference instant and assigns only the date units.
pub open spec fn spec_try_parse_weekday(ws: Seq<Seq<char>>, pos: int, now: Instant) -> Option<
    (Seq<(CronColumn, CronValue)>, int),
> {
    match spec_on_word(ws, pos) {
        None => None,
        Some((w, p2)) => {
            let event = spec_weekday_number(lower_seq(w));
            if event >= 7 {
                None
            } else {
                let current = crate::instant::spec_weekday(now);
                let nb = spec_weekday_offset(current, event as int);
                let t = now.spec_plus_days(nb as nat);
                if t.year > crate::instant::MAX_YEAR {
                    None
                } else {
                    Some((spec_date_updates(t), p2))
                }
            }
        },
    }
}

/// The weekday-name rule.
pub fn try_parse_weekday(words: &Vec<String>, pos: usize, now: &Instant) -> (r: Option<
    ParseUpdate,
>)
    requires
        pos <= words@.len(),
        now.valid(),
    ensures
        r is Some <==> spec_try_parse_weekday(words.deep_view(), pos as int, *now) is Some,
        r is Some ==> r->Some_0.view_up() == spec_try_parse_weekday(
            words.deep_view(),
            pos as int,
            *now,
        )->Some_0,
        r is Some ==> pos < r->Some_0.new_pos <= words@.len(),
{
    let ghost ws = words.deep_view();
    let n = words.len();
    let (wi, p2): (usize, usize) = if n - pos >= 2 && str_is(&words[pos], "on") {
        (pos + 1, pos + 2)
    } else if pos < n {
        (pos, pos + 1)
    } else {
        return None;
    };
    let cs = chars_of_lower(words[wi].as_str());
    let event: u64 = if chars_eq_str(&cs, "monday") {
        0
    } else if chars_eq_str(&cs, "tuesday") {
        1
    } else if chars_eq_str(&cs, "wednesday") {
        2
    } else if chars_eq_str(&cs, "thursday") {
        3
    } else if chars_eq_str(&cs, "friday") {
        4
    } else if chars_eq_str(&cs, "saturday") {
        5
    } else if chars_eq_str(&cs, "sunday") {
        6
    } else {
        return None;
    };
    let current = crate::instant::weekday_of(now);
    let nb: u64 = if current < event {
        event - current
    } else {
        7 - (current - event)
    };
    match crate::instant::add_days(now, nb) {
        Option::Some(t) => {
            let ups = date_updates(&t);
            Some(ParseUpdate { cron_updates: ups, new_pos: p2 })
        },
        Option::None => None,
    }
}

/// One round of the chain: the rules are tried in their fixed priority
/// order against the words at `pos`, and the first that matches wins.
pub open spec fn spec_parse(ws: Seq<Seq<char>>, pos: int, now: Instant, df: DateFormat) -> Option<
    (Seq<(CronColumn, CronValue)>, int),
> {
    if spec_try_parse_day(ws, pos) is Some {
        spec_try_parse_day(ws, pos)
    } else if spec_try_parse_month(ws, pos) is Some {
        spec_try_parse_month(ws, pos)
    } else if spec_try_parse_clocktime(ws, pos) is Some {
        spec_try_parse_clocktime(ws, pos)
    } else if spec_try_parse_duration(ws, pos, now) is Some {
        spec_try_parse_duration(ws, pos, now)
    } else if spec_try_parse_year(ws, pos) is Some {
        spec_try_parse_year(ws, pos)
    } else if spec_try_parse_every(ws, pos) is Some {
        spec_try_parse_every(ws, pos)
    } else if spec_try_parse_date_digits(ws, pos, df) is Some {
        spec_try_parse_date_digits(ws, pos, df)
    } else if spec_try_parse_relative(ws, pos, now) is Some {
        spec_try_parse_relative(ws, pos, now)
    } else {
        spec_try_parse_weekday(ws, pos, now)
    }
}

/// One round of the chain.
pub fn parse(words: &Vec<String>, pos: usize, now: &Instant, date_format: DateFormat) -> (r: Option<
    ParseUpdate,
>)
    requires
        pos <= words@.len(),
        now.valid(),
    ensures
        r is Some <==> spec_parse(words.deep_view(), pos as int, *now, date_format) is Some,
        r is Some ==> r->Some_0.view_up() == spec_parse(
            words.deep_view(),
            pos as int,
            *now,
            date_format,
        )->Some_0,
        r is Some ==> pos < r->Some_0.new_pos <= words@.len(),
{
    if let Some(u) = try_parse_day(words, pos) {
        return Some(u);
    }
    if let Some(u) = try_parse_month(words, pos) {
        return Some(u);
    }
    if let Some(u) = try_parse_clocktime(words, pos) {
        return Some(u);
    }
    if let Some(u) = try_parse_duration(words, pos, now) {
        return Some(u);
    }
    if let Some(u) = try_parse_year(words, pos) {
        return Some(u);
    }
    if let Some(u) = try_parse_every(words, pos) {
        return Some(u);
    }
    if let Some(u) = try_parse_date_digits(words, pos, date_format) {
        return Some(u);
    }
    if let Some(u) = try_parse_relative(words, pos, now) {
        return Some(u);
    }
    try_parse_weekday(words, pos, now)
}

/// The "every <unit>" rule.
pub fn try_parse_every(words: &Vec<String>, pos: usize) -> (r: Option<ParseUpdate>)
    requires
        pos <= words@.len(),
    ensures
        r is Some <==> spec_try_parse_every(words.deep_view(), pos as int) is Some,
        r is Some ==> r->Some_0.view_up() == spec_try_parse_every(
            words.deep_view(),
            pos as int,
        )->Some_0,
        r is Some ==> pos < r->Some_0.new_pos <= words@.len(),
{
    let ghost ws = words.deep_view();
    let n = words.len();
    let q: usize = if pos < n && str_is(&words[pos], "on") {
        pos + 1
    } else {
        pos
    };
    if !(n - q >= 2 && str_is(&words[q], "every")) {
        return None;
    }
    let mut ups: Vec<(CronColumn, CronValue)> = Vec::new();
    if str_is(&words[q + 1], "hour") {
        ups.push((CronColumn::Hour, CronValue::Every));
        ups.push((CronColumn::Minute, CronValue::On(0)));
    } else if str_is(&words[q + 1], "minute") {
        ups.push((CronColumn::Minute, CronValue::Every));
    } else if str_is(&words[q + 1], "day") {
        ups.push((CronColumn::Day, CronValue::Every));
    } else if str_is(&words[q + 1], "month") {
        ups.push((CronColumn::Month, CronValue::Every));
    } else if str_is(&words[q + 1], "year") {
        ups.push((CronColumn::Year, CronValue::Every));
    } else {
        return None;
    }
    proof {
        assert(ups@ =~= spec_try_parse_every(ws, pos as int)->Some_0.0);
    }
    Some(ParseUpdate { cron_updates: ups, new_pos: q + 2 })
}

} // verus!
