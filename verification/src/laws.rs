//! Laws that relate several components: what a well-formed duration
//! expression builds, that it is always the round's first match and so the
//! whole command round-trips through the pattern, what the day rule
//! consumes and what it must not, how the weekday rule treats the current
//! weekday, and how the sweep treats one-shot and every-minute events.

use vstd::prelude::*;

use crate::agenda::spec_sweep;
use crate::cron::{CronColumn, CronValue, Cronline};
use crate::cronline_builder::CronlineBuilder;
use crate::errors::AgendaError;
use crate::event::is_occurrence;
use crate::instant::{
    lemma_abs_lt_implies_key_lt, lemma_plus_days_ok, lemma_plus_minutes_ok, Instant, MAX_YEAR,
};
use crate::parsers::{
    is_ordinal_suffix, spec_date_updates, spec_day_word, spec_duration_words, spec_full_updates,
    spec_on_word, spec_try_parse_day, spec_try_parse_duration, spec_try_parse_weekday,
    spec_weekday_number,
};
use crate::textfmt::{all_digits, digit_run, digits_val, lemma_digit_run_facts, lower_seq};
use crate::time_parsing::spec_apply;
use crate::DateFormat;

verus! {

/// For every well-formed duration expression "in N <unit> ...", the
/// assignments the duration rule emits, merged into an empty pattern, are
/// exactly the fully fixed pattern of the instant N units after "now":
/// a duration round-trips through the pattern.
pub proof fn lemma_duration_round_trip(ws: Seq<Seq<char>>, pos: int, now: Instant)
    requires
        now.valid(),
        spec_try_parse_duration(ws, pos, now) is Some,
    ensures
        ({
            let (value, factor, p2) = spec_duration_words(ws, pos)->Some_0;
            let t = now.spec_plus_minutes((value * factor) as nat);
            let ups = spec_try_parse_duration(ws, pos, now)->Some_0.0;
            &&& spec_apply(CronlineBuilder::spec_empty(), ups) matches Ok(b)
                && b.complete() && b.spec_built_line() == Cronline::spec_from_time(t)
        }),
{
    let (value, factor, p2) = spec_duration_words(ws, pos)->Some_0;
    let t = now.spec_plus_minutes((value * factor) as nat);
    let ups = spec_full_updates(t);
    assert(spec_try_parse_duration(ws, pos, now)->Some_0.0 == ups);
    let b0 = CronlineBuilder::spec_empty();
    let b1 = b0.spec_with(CronColumn::Minute, Some(CronValue::On(t.minute)));
    let b2 = b1.spec_with(CronColumn::Hour, Some(CronValue::On(t.hour)));
    let b3 = b2.spec_with(CronColumn::Day, Some(CronValue::On(t.day)));
    let b4 = b3.spec_with(CronColumn::Month, Some(CronValue::On(t.month)));
    let b5 = b4.spec_with(CronColumn::Year, Some(CronValue::On(t.year)));
    let u1 = ups.drop_first();
    let u2 = u1.drop_first();
    let u3 = u2.drop_first();
    let u4 = u3.drop_first();
    let u5 = u4.drop_first();
    assert(u1 =~= ups.skip(1) && u1[0] == (CronColumn::Hour, CronValue::On(t.hour)));
    assert(u2[0] == (CronColumn::Day, CronValue::On(t.day)));
    assert(u3[0] == (CronColumn::Month, CronValue::On(t.month)));
    assert(u4[0] == (CronColumn::Year, CronValue::On(t.year)));
    assert(u5.len() == 0);
    assert(spec_apply(b0, ups) == spec_apply(b1, u1));
    assert(spec_apply(b1, u1) == spec_apply(b2, u2));
    assert(spec_apply(b2, u2) == spec_apply(b3, u3));
    assert(spec_apply(b3, u3) == spec_apply(b4, u4));
    assert(spec_apply(b4, u4) == spec_apply(b5, u5));
    assert(spec_apply(b5, u5) == Result::<CronlineBuilder, AgendaError>::Ok(b5));
    assert forall|c: CronColumn| b5.spec_slot(c) is Some by {
        match c {
            CronColumn::Minute => {},
            CronColumn::Hour => {},
            CronColumn::Day => {},
            CronColumn::Month => {},
            CronColumn::Year => {},
        }
    }
    assert(b5.spec_built_line() == Cronline::spec_from_time(t));
}

/// A well-formed duration expression is always the round's first match:
/// none of the rules ahead of the duration rule in priority order can
/// consume "in" followed by a token beginning with digits.
pub proof fn lemma_duration_first_match(ws: Seq<Seq<char>>, pos: int, now: Instant, df: DateFormat)
    requires
        spec_try_parse_duration(ws, pos, now) is Some,
    ensures
        crate::parsers::spec_parse(ws, pos, now, df) == spec_try_parse_duration(ws, pos, now),
{
    reveal_strlit("in");
    reveal_strlit("on");
    reveal_strlit("the");
    reveal_strlit("at");
    reveal_strlit("january");
    reveal_strlit("february");
    reveal_strlit("march");
    reveal_strlit("april");
    reveal_strlit("may");
    reveal_strlit("june");
    reveal_strlit("july");
    reveal_strlit("august");
    reveal_strlit("september");
    reveal_strlit("october");
    reveal_strlit("november");
    reveal_strlit("december");
    assert(ws[pos] == "in"@ && pos + 2 <= ws.len());
    let w = ws[pos + 1];
    lemma_digit_run_facts(w, 0);
    assert(digit_run(w, 0) != 0);
    assert(digit_run(w, 0) >= 1);
    assert(crate::textfmt::is_digit(w[0]));
    // The day rule: "in" is no preposition of it, and holds no digits.
    let lin = lower_seq("in"@);
    assert(lin[0] == 'i' && lin[1] == 'n' && lin.len() == 2);
    assert(spec_day_word(ws, pos) == Some((lin, pos + 1, false)));
    assert(digit_run(lin, 0) == 0);
    assert(spec_try_parse_day(ws, pos) is None);
    // The month rule: the duration count starts with a digit, a month name
    // with a letter.
    let lw = lower_seq(w);
    assert(lw[0] == w[0]);
    assert(crate::parsers::spec_month_number(lw) == 0) by {
        assert(w[0] as u32 <= 57);
    }
    assert(crate::parsers::spec_try_parse_month(ws, pos) is None);
    // The clock-time rule: "in" holds no digits either.
    assert(crate::parsers::spec_at_word(ws, pos) == Some(("in"@, pos + 1, false)));
    assert(crate::parsers::spec_clock_shape(lin) is None);
    assert(crate::parsers::spec_try_parse_clocktime(ws, pos) is None);
}

/// For every well-formed duration command "in N <unit> <message...>"
/// whose tail no rule consumes, the chain parses exactly the duration: the
/// completed pattern is the fully fixed pattern of "now" plus the duration,
/// autofill changes nothing, and no default time is added.
pub proof fn lemma_parse_cronline_duration(ws: Seq<Seq<char>>, now: Instant, df: DateFormat)
    requires
        now.valid(),
        spec_try_parse_duration(ws, 0, now) is Some,
        ({
            let p2 = spec_try_parse_duration(ws, 0, now)->Some_0.1;
            p2 == ws.len() || crate::parsers::spec_parse(ws, p2, now, df) is None
        }),
    ensures
        ({
            let (value, factor, p2) = spec_duration_words(ws, 0)->Some_0;
            let t = now.spec_plus_minutes((value * factor) as nat);
            let ch = crate::time_parsing::spec_chain(ws, now, df, CronlineBuilder::spec_empty(), 0);
            &&& ch matches Ok((b, pos)) && pos == p2 && b.complete()
                && b.spec_built_line() == Cronline::spec_from_time(t)
                && crate::cronline_builder::spec_autofill(b, now) == b
                && !crate::cronline_builder::spec_autofill_defaulted(b, now)
        }),
{
    lemma_duration_first_match(ws, 0, now, df);
    lemma_duration_round_trip(ws, 0, now);
    let (value, factor, p2) = spec_duration_words(ws, 0)->Some_0;
    let t = now.spec_plus_minutes((value * factor) as nat);
    let ups = spec_try_parse_duration(ws, 0, now)->Some_0.0;
    let b = crate::time_parsing::spec_apply(CronlineBuilder::spec_empty(), ups)->Ok_0;
    assert(spec_try_parse_duration(ws, 0, now)->Some_0.1 == p2);
    assert(0 < p2 <= ws.len());
    if p2 < ws.len() {
        assert(crate::time_parsing::spec_chain(ws, now, df, b, p2) == Result::<
            (CronlineBuilder, int),
            crate::errors::AgendaError,
        >::Ok((b, p2)));
    }
    crate::cronline_builder::lemma_autofill_idempotent_on_complete(b, now);
}

/// The day rule resolves "on the N", "the N" and "N" with an ordinal
/// suffix to day N, and never consumes a bare number: without a
/// preposition or a suffix the word is left for the other rules.
pub proof fn lemma_day_rule(ws: Seq<Seq<char>>, pos: int)
    requires
        spec_day_word(ws, pos) is Some,
    ensures
        ({
            let (lw, p2, prep) = spec_day_word(ws, pos)->Some_0;
            let k = digit_run(lw, 0);
            // A plain number with a preposition resolves to that day.
            &&& (prep && all_digits(lw) && 1 <= lw.len() <= 2 ==> spec_try_parse_day(ws, pos)
                == Some(
                (
                    seq![(CronColumn::Day, CronValue::On(digits_val(lw) as u64))],
                    p2,
                ),
            ))
            // A number with an ordinal suffix resolves to that day.
            &&& (1 <= k <= 2 && k < lw.len() && is_ordinal_suffix(lw.skip(k))
                ==> spec_try_parse_day(ws, pos) == Some(
                (
                    seq![(CronColumn::Day, CronValue::On(digits_val(lw.subrange(0, k)) as u64))],
                    p2,
                ),
            ))
            // A bare number is rejected so other rules get a chance.
            &&& (!prep && all_digits(lw) ==> spec_try_parse_day(ws, pos) is None)
        }),
{
    let (lw, p2, prep) = spec_day_word(ws, pos)->Some_0;
    let k = digit_run(lw, 0);
    lemma_digit_run_facts(lw, 0);
    if all_digits(lw) {
        if k < lw.len() {
            assert(crate::textfmt::is_digit(lw[k]));
        }
        assert(k == lw.len());
        assert(lw.subrange(0, k) =~= lw);
    }
}

/// Weekday resolution never resolves to the same day: naming the weekday
/// "now" falls on yields the date seven days ahead, whose weekday is again
/// the same.
pub proof fn lemma_weekday_rule_same_day(ws: Seq<Seq<char>>, pos: int, now: Instant)
    requires
        now.valid(),
        spec_on_word(ws, pos) is Some,
        spec_weekday_number(lower_seq(spec_on_word(ws, pos)->Some_0.0)) == crate::instant::spec_weekday(
            now,
        ),
        spec_weekday_number(lower_seq(spec_on_word(ws, pos)->Some_0.0)) < 7,
        now.spec_plus_days(7).year <= MAX_YEAR,
    ensures
        spec_try_parse_weekday(ws, pos, now) == Some(
            (spec_date_updates(now.spec_plus_days(7)), spec_on_word(ws, pos)->Some_0.1),
        ),
        crate::instant::spec_weekday(now.spec_plus_days(7)) == crate::instant::spec_weekday(now),
{
    let t = now.spec_plus_days(7);
    lemma_plus_days_ok(now, 7);
    assert(t.day_index() == now.day_index() + 7);
    assert((now.day_index() + 7 + 5) % 7 == (now.day_index() + 5) % 7) by (nonlinear_arith);
}

/// An event whose pattern fixes one instant fires exactly at that instant:
/// the sweep at that instant emits its notification and removes it (no
/// occurrence is left), and a sweep at any other instant leaves it alone.
pub proof fn lemma_one_shot_event(id: u64, ev: AgendaEvent, t: Instant, u: Instant)
    requires
        ev.cronline == Cronline::spec_from_time(t),
        t.valid(),
        u.valid(),
    ensures
        ev.cronline.spec_matches(u) <==> u == t,
        spec_sweep(seq![(id, ev)], t) == (
            Seq::<(u64, crate::event::AgendaEvent)>::empty(),
            seq!["\u{23f0} "@ + ev.text@],
        ),
        u != t ==> spec_sweep(seq![(id, ev)], u) == (seq![(id, ev)], Seq::<Seq<char>>::empty()),
{
    crate::cron::lemma_from_time_matches(t, u);
    crate::cron::lemma_from_time_matches(t, t);
    let s = seq![(id, ev)];
    assert(s[0] == (id, ev));
    assert(s.drop_first().len() == 0);
    assert forall|t2: Instant| !is_occurrence(ev.cronline, t, t2) by {
        if is_occurrence(ev.cronline, t, t2) {
            crate::cron::lemma_from_time_matches(t, t2);
            assert(t2 == t);
        }
    }
    assert(spec_sweep(s.drop_first(), t) == (s.drop_first(), Seq::<Seq<char>>::empty()));
    assert(spec_sweep(s, t).0 =~= Seq::<(u64, crate::event::AgendaEvent)>::empty());
    assert(spec_sweep(s, t).1 =~= seq!["\u{23f0} "@ + ev.text@]);
    if u != t {
        assert(!ev.cronline.spec_matches(u));
        assert(spec_sweep(s.drop_first(), u) == (s.drop_first(), Seq::<Seq<char>>::empty()));
        assert(spec_sweep(s, u).0 =~= seq![(id, ev)]);
        assert(spec_sweep(s, u).1 =~= Seq::<Seq<char>>::empty());
    }
}

use crate::event::AgendaEvent;

/// An event with a wildcard in every unit fires at every instant and is
/// never removed: a future occurrence (the next minute) always exists
/// within the horizon.
pub proof fn lemma_every_minute_event(id: u64, ev: AgendaEvent, now: Instant)
    requires
        forall|c: CronColumn| #[trigger] ev.cronline.spec_get(c) == CronValue::Every,
        now.valid(),
        now.year < MAX_YEAR,
    ensures
        ev.cronline.spec_matches(now),
        is_occurrence(ev.cronline, now, now.spec_plus_minutes(1)),
        spec_sweep(seq![(id, ev)], now) == (seq![(id, ev)], seq!["\u{23f0} "@ + ev.text@]),
{
    assert(ev.cronline.spec_matches(now)) by {
        assert(ev.cronline.spec_get(CronColumn::Minute) == CronValue::Every);
    }
    let t2 = now.spec_plus_minutes(1);
    lemma_plus_minutes_ok(now, 1);
    // The next minute is a valid instant within the horizon.
    let a = now.hour * 60 + now.minute + 1;
    let carry = a / 1440;
    assert(0 <= carry <= 1) by (nonlinear_arith)
        requires
            a == now.hour * 60 + now.minute + 1,
            0 <= now.hour <= 23,
            0 <= now.minute <= 59,
            carry == a / 1440,
    ;
    let base = Instant {
        hour: ((a % 1440) / 60) as u64,
        minute: ((a % 1440) % 60) as u64,
        ..now
    };
    assert(base.date_ok() && base.year == now.year) by (nonlinear_arith)
        requires
            base.hour == (a % 1440) / 60,
            base.minute == (a % 1440) % 60,
            base.year == now.year,
            base.month == now.month,
            base.day == now.day,
            now.date_ok(),
            a >= 0,
            base.date_ok() == (1 <= base.month <= 12 && 1 <= base.day
                <= crate::instant::spec_days_in_month(base.year as int, base.month as int)
                && base.hour <= 23 && base.minute <= 59),
    ;
    lemma_plus_days_ok(base, carry as nat);
    assert(now.year <= t2.year <= now.year + 1);
    assert(t2.valid());
    assert(t2.abs_minutes() == now.abs_minutes() + 1);
    lemma_abs_lt_implies_key_lt(now, t2);
    assert(ev.cronline.spec_matches(t2)) by {
        assert(ev.cronline.spec_get(CronColumn::Minute) == CronValue::Every);
    }
    assert(is_occurrence(ev.cronline, now, t2));
    // The sweep fires it and keeps it.
    let s = seq![(id, ev)];
    assert(s[0] == (id, ev));
    assert(s.drop_first().len() == 0);
    assert(!(forall|u: Instant| !is_occurrence(ev.cronline, now, u)));
    assert(spec_sweep(s.drop_first(), now) == (s.drop_first(), Seq::<Seq<char>>::empty()));
    assert(spec_sweep(s, now).0 =~= seq![(id, ev)]);
    assert(spec_sweep(s, now).1 =~= seq!["\u{23f0} "@ + ev.text@]);
}

} // verus!
