//! The time-expression parser against a fixed reference instant.

use nag::cron::{CronColumn, CronValue, Cronline};
use nag::instant::{add_days, add_minutes, Instant};
use nag::time_parsing::parse_cronline;
use nag::DateFormat;

fn words_of(msg: &str) -> Vec<String> {
    msg.split_whitespace().map(|w| w.to_string()).collect()
}

struct TestParams<'a> {
    date_format: DateFormat,
    now: Instant,
    msg: &'a str,
    exp_cronline: Cronline,
    exp_rem_words: &'a [&'a str],
}

impl<'a> TestParams<'a> {
    fn new(
        now: Instant,
        msg: &'a str,
        exp_cronline: Cronline,
        exp_rem_words: &'a [&'a str],
    ) -> Self {
        TestParams {
            date_format: DateFormat::DMY,
            now,
            msg,
            exp_cronline,
            exp_rem_words,
        }
    }

    fn with_format(mut self, date_format: DateFormat) -> Self {
        self.date_format = date_format;
        self
    }
}

fn test_parse(params: &TestParams) {
    let words = words_of(params.msg);
    let res = parse_cronline(&params.now, &words, params.date_format).unwrap();
    assert_eq!(res.cronline, params.exp_cronline);
    let rem: Vec<String> = params.exp_rem_words.iter().map(|w| w.to_string()).collect();
    assert_eq!(res.remaining_words, rem);
}

#[test]
fn fixed_durations() {
    let now = Instant::new(2000, 01, 01, 08, 00);

    test_parse(&TestParams::new(
        now,
        "in 2 min test1 test2",
        Cronline::from_time(&add_minutes(&now, 2).unwrap()),
        &["test1", "test2"],
    ));

    test_parse(&TestParams::new(
        now,
        "in 3h test1 test2",
        Cronline::from_time(&add_minutes(&now, 3 * 60).unwrap()),
        &["test1", "test2"],
    ));
}

#[test]
fn weekdays() {
    // That date is a Saturday
    let now = Instant::new(2000, 01, 01, 08, 00);

    test_parse(&TestParams::new(
        now,
        "on saturday at 8am test1 test2",
        Cronline::from_time(&add_days(&now, 7).unwrap()),
        &["test1", "test2"],
    ));

    test_parse(&TestParams::new(
        now,
        "on sunday at 8am test1 test2",
        Cronline::from_time(&add_days(&now, 1).unwrap()),
        &["test1", "test2"],
    ));
}

#[test]
fn month() {
    let now = Instant::new(2000, 01, 01, 08, 00);
    let t1 = Instant::new(2000, 09, 05, 08, 00);

    test_parse(&TestParams::new(
        now,
        "in September on the 5th at 8am test1 test2",
        Cronline::from_time(&t1),
        &["test1", "test2"],
    ));
}

#[test]
fn year() {
    let now = Instant::new(2000, 01, 01, 08, 00);
    let t1 = Instant::new(2001, 09, 05, 08, 00);

    test_parse(&TestParams::new(
        now,
        "in 2001 on 05/09 at 8am test1 test2",
        Cronline::from_time(&t1),
        &["test1", "test2"],
    ));
}

#[test]
fn today_tomorrow() {
    let now = Instant::new(2000, 01, 01, 08, 00);
    let t1 = Instant::new(2000, 01, 01, 22, 00);

    test_parse(&TestParams::new(
        now,
        "today at 10pm test1 test2",
        Cronline::from_time(&t1),
        &["test1", "test2"],
    ));

    let t2 = Instant::new(2000, 01, 02, 22, 00);

    test_parse(&TestParams::new(
        now,
        "tomorrow at 10pm test1 test2",
        Cronline::from_time(&t2),
        &["test1", "test2"],
    ));
}

#[test]
fn single_digits() {
    let now = Instant::new(2000, 01, 01, 08, 00);
    let t1 = Instant::new(2000, 01, 01, 9, 00);

    test_parse(&TestParams::new(
        now,
        "at 9 test1 test2",
        Cronline::from_time(&t1),
        &["test1", "test2"],
    ));

    let t2 = Instant::new(2000, 01, 09, 11, 00);

    test_parse(&TestParams::new(
        now,
        "on the 9 at 11am test1 test2",
        Cronline::from_time(&t2),
        &["test1", "test2"],
    ));
}

#[test]
fn am_pm() {
    let now = Instant::new(2000, 01, 01, 08, 00);
    let t1 = Instant::new(2000, 01, 01, 9, 00);

    test_parse(&TestParams::new(
        now,
        "at 9am test1 test2",
        Cronline::from_time(&t1),
        &["test1", "test2"],
    ));

    test_parse(&TestParams::new(
        now,
        "at 9 am test1 test2",
        Cronline::from_time(&t1),
        &["test1", "test2"],
    ));

    let t2 = Instant::new(2000, 01, 01, 21, 00);

    test_parse(&TestParams::new(
        now,
        "at 9pm test1 test2",
        Cronline::from_time(&t2),
        &["test1", "test2"],
    ));

    test_parse(&TestParams::new(
        now,
        "at 9 pm test1 test2",
        Cronline::from_time(&t2),
        &["test1", "test2"],
    ));
}

#[test]
fn date_formats() {
    let now = Instant::new(2000, 01, 01, 08, 00);

    // Unspecified date format (should default to DMY)

    let t1 = Instant::new(2000, 08, 07, 08, 00);

    let params = TestParams::new(
        now,
        "on 07/08 at 8am test1 test2",
        Cronline::from_time(&t1),
        &["test1", "test2"],
    );
    test_parse(&params);

    // DMY

    let params = params.with_format(DateFormat::DMY);
    test_parse(&params);

    // MDY

    let t2 = Instant::new(2000, 07, 08, 08, 00);

    let params = TestParams::new(
        now,
        "on 07/08 at 8am test1 test2",
        Cronline::from_time(&t2),
        &["test1", "test2"],
    )
    .with_format(DateFormat::MDY);

    test_parse(&params);
}

#[test]
#[should_panic]
fn fail_every() {
    let now = Instant::new(2000, 01, 01, 08, 00);
    let msg = "every year at 7am";

    let words = words_of(msg);
    parse_cronline(&now, &words, DateFormat::DMY).unwrap();
}

#[test]
#[should_panic]
fn fail_pm() {
    let now = Instant::new(2000, 01, 01, 08, 00);
    let msg = "at 13pm";

    let words = words_of(msg);
    parse_cronline(&now, &words, DateFormat::DMY).unwrap();
}

#[test]
fn wildcard_propagation_boundary() {
    // "every day at 5pm" leaves hour and minute fixed and makes month and
    // year wildcards too.
    let now = Instant::new(2000, 01, 01, 08, 00);
    let words = words_of("every day at 5pm test1");
    let res = parse_cronline(&now, &words, DateFormat::DMY).unwrap();
    assert_eq!(res.cronline.get(CronColumn::Minute), CronValue::On(0));
    assert_eq!(res.cronline.get(CronColumn::Hour), CronValue::On(17));
    assert_eq!(res.cronline.get(CronColumn::Day), CronValue::Every);
    assert_eq!(res.cronline.get(CronColumn::Month), CronValue::Every);
    assert_eq!(res.cronline.get(CronColumn::Year), CronValue::Every);
    assert!(res.comment.is_none());

    // "at 9am" fills the date from "now": a one-shot event for today.
    let words = words_of("at 9am test1");
    let res = parse_cronline(&now, &words, DateFormat::DMY).unwrap();
    assert_eq!(res.cronline, Cronline::from_time(&Instant::new(2000, 1, 1, 9, 0)));
    assert!(res.comment.is_none());
}

#[test]
fn default_time() {
    // "every day" names no time of day: the default applies, with a comment.
    let now = Instant::new(2000, 01, 01, 08, 00);
    let words = words_of("every day test1");
    let res = parse_cronline(&now, &words, DateFormat::DMY).unwrap();
    assert_eq!(res.cronline.get(CronColumn::Minute), CronValue::On(0));
    assert_eq!(res.cronline.get(CronColumn::Hour), CronValue::On(10));
    assert_eq!(res.cronline.get(CronColumn::Day), CronValue::Every);
    assert_eq!(res.comment.as_deref(), Some("Defaulting time to 10:00am"));
}

#[test]
fn bare_number_is_not_a_day() {
    // A bare "9" must not be taken as a day of month; here it is a clock
    // time would also be rejected (no preposition), so nothing parses and
    // the whole text is the message.
    let now = Instant::new(2000, 01, 01, 08, 00);
    let words = words_of("9 test1");
    let res = parse_cronline(&now, &words, DateFormat::DMY);
    // No time expression was found: the pattern is incomplete.
    assert!(res.is_err());
}

#[test]
fn ordinal_day_without_preposition() {
    let now = Instant::new(2000, 01, 01, 08, 00);
    let words = words_of("21st at 8am test1");
    let res = parse_cronline(&now, &words, DateFormat::DMY).unwrap();
    assert_eq!(res.cronline, Cronline::from_time(&Instant::new(2000, 1, 21, 8, 0)));
}

#[test]
fn duplicate_unit_is_an_error() {
    let now = Instant::new(2000, 01, 01, 08, 00);
    let words = words_of("at 8am at 9am test1");
    let res = parse_cronline(&now, &words, DateFormat::DMY);
    assert!(res.is_err());
}

#[test]
fn leap_year_dates() {
    let now = Instant::new(2000, 01, 01, 08, 00);
    // 2000 is a leap year: February 29th parses and rolls correctly.
    let words = words_of("on 29/02 at 8am test1");
    let res = parse_cronline(&now, &words, DateFormat::DMY).unwrap();
    assert_eq!(res.cronline.get(CronColumn::Day), CronValue::On(29));
    assert_eq!(res.cronline.get(CronColumn::Month), CronValue::On(2));

    // 60 days after 2000-01-01 is 2000-03-01, across the leap day.
    let t = add_days(&now, 60).unwrap();
    assert_eq!(t, Instant::new(2000, 3, 1, 8, 0));
}

#[test]
fn date_only_input_gets_default_time() {
    // A date without a time of day leaves hour and minute unassigned (the
    // now-fill only completes units coarser than a fixed one), so the
    // default time applies, with its comment.
    let now = Instant::new(2000, 01, 01, 08, 00);
    let words = words_of("tomorrow buy milk");
    let res = parse_cronline(&now, &words, DateFormat::DMY).unwrap();
    assert_eq!(res.cronline, Cronline::from_time(&Instant::new(2000, 1, 2, 10, 0)));
    assert_eq!(res.comment.as_deref(), Some("Defaulting time to 10:00am"));
    assert_eq!(res.remaining_words, vec!["buy".to_string(), "milk".to_string()]);
}

#[test]
fn wildcard_blocks_now_fill() {
    // A wildcard unit blocks the now-fill of everything finer: with only
    // the year recurring and the time fixed, day and month stay unassigned
    // and the pattern is incomplete.
    let now = Instant::new(2000, 01, 01, 08, 00);
    let words = words_of("every year at 7am birthday");
    let res = parse_cronline(&now, &words, DateFormat::DMY);
    assert!(res.is_err());

    // With the month recurring, the wildcard propagates into the year,
    // and the day beneath it stays unassigned.
    let words = words_of("every month at 7am pay rent");
    let res = parse_cronline(&now, &words, DateFormat::DMY);
    assert!(res.is_err());
}
