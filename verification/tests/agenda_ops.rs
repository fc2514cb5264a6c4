//! The store operations, the firing sweep, the next-occurrence search and
//! the message formatting, on concrete values.

use nag::agenda::{format_time_diff, AgendaState};
use nag::cron::{CronColumn, CronValue, Cronline};
use nag::errors::{format_error, AgendaError};
use nag::event::AgendaEvent;
use nag::instant::{weekday_of, Instant};
use nag::DateFormat;

fn words_of(msg: &str) -> Vec<String> {
    msg.split_whitespace().map(|w| w.to_string()).collect()
}

fn now_2000() -> Instant {
    Instant::new(2000, 1, 1, 8, 0)
}

#[test]
fn end_to_end_duration() {
    // now = 2000-01-01 08:00:00; "in 2 min buy milk"
    let mut st = AgendaState::new();
    let reply = st
        .add_event(&now_2000(), &words_of("in 2 min buy milk"), DateFormat::DMY)
        .unwrap();
    assert_eq!(st.events.len(), 1);
    assert_eq!(st.events[0].0, 0);
    assert_eq!(
        st.events[0].1.cronline,
        Cronline::from_time(&Instant::new(2000, 1, 1, 8, 2))
    );
    assert_eq!(st.events[0].1.text, "buy milk");
    assert_eq!(st.events[0].1.tag, None);
    assert_eq!(reply, "New event added (number 0).\nNext occurence in 2 minutes.");
}

#[test]
fn end_to_end_weekday() {
    // 2000-01-01 is a Saturday: "on saturday" resolves a week ahead.
    let mut st = AgendaState::new();
    st.add_event(
        &now_2000(),
        &words_of("on saturday at 8am go jogging"),
        DateFormat::DMY,
    )
    .unwrap();
    assert_eq!(
        st.events[0].1.cronline,
        Cronline::from_time(&Instant::new(2000, 1, 8, 8, 0))
    );
    assert_eq!(st.events[0].1.text, "go jogging");
}

#[test]
fn end_to_end_every_year_fails() {
    // Only the year becomes a wildcard while the hour is user-fixed:
    // nothing propagates into day and month, the wildcard blocks the
    // now-fill, and the pattern is incomplete.
    let mut st = AgendaState::new();
    let res = st.add_event(&now_2000(), &words_of("every year at 7am birthday"), DateFormat::DMY);
    match res {
        Err(AgendaError::IncompleteCronline(cols)) => {
            assert_eq!(cols, vec![CronColumn::Day, CronColumn::Month]);
        }
        other => panic!("unexpected outcome: {:?}", other),
    }
    assert_eq!(st.events.len(), 0);

    // Naming the day and month makes the yearly reminder well-formed.
    let reply = st.add_event(
        &now_2000(),
        &words_of("every year on the 4th in April at 7am birthday"),
        DateFormat::DMY,
    );
    assert!(reply.is_ok());
    assert_eq!(st.events[0].1.cronline.get(CronColumn::Day), CronValue::On(4));
    assert_eq!(st.events[0].1.cronline.get(CronColumn::Month), CronValue::On(4));
    assert_eq!(st.events[0].1.cronline.get(CronColumn::Year), CronValue::Every);
}

#[test]
fn no_message_is_an_error() {
    let mut st = AgendaState::new();
    let res = st.add_event(&now_2000(), &words_of("in 2 min"), DateFormat::DMY);
    assert_eq!(res, Err(AgendaError::NoMessage));
}

#[test]
fn never_occurs_is_an_error() {
    // A fixed date in the past can never fire and is rejected at add time.
    let mut st = AgendaState::new();
    let res = st.add_event(
        &now_2000(),
        &words_of("in 1999 on 01/01 at 8am too late"),
        DateFormat::DMY,
    );
    assert_eq!(res, Err(AgendaError::NeverOccurs));
    assert_eq!(st.events.len(), 0);
}

#[test]
fn smallest_free_id_is_reused() {
    let mut st = AgendaState::new();
    st.add_event(&now_2000(), &words_of("in 1 min a"), DateFormat::DMY).unwrap();
    st.add_event(&now_2000(), &words_of("in 2 min b"), DateFormat::DMY).unwrap();
    st.add_event(&now_2000(), &words_of("in 3 min c"), DateFormat::DMY).unwrap();
    let reply = st.remove_events(&words_of("1")).unwrap();
    assert_eq!(reply, "Removed event \"b\"");
    // The freed identifier is the smallest unused one and is taken again.
    st.add_event(&now_2000(), &words_of("in 4 min d"), DateFormat::DMY).unwrap();
    let ids: Vec<u64> = st.events.iter().map(|p| p.0).collect();
    assert_eq!(ids, vec![0, 1, 2]);
    assert_eq!(st.events[1].1.text, "d");
}

#[test]
fn remove_unknown_id_is_reported() {
    let mut st = AgendaState::new();
    st.add_event(&now_2000(), &words_of("in 1 min a"), DateFormat::DMY).unwrap();
    let reply = st.remove_events(&words_of("0 7")).unwrap();
    assert_eq!(reply, "Removed event \"a\"\nError: no event at number \"7\"");
    assert_eq!(st.events.len(), 0);

    let res = st.remove_events(&words_of(""));
    assert_eq!(res, Err(AgendaError::NoEventNumber));
    let res = st.remove_events(&words_of("x"));
    assert_eq!(res, Err(AgendaError::InvalidEventNumber));
}

#[test]
fn tag_untag_round() {
    let mut st = AgendaState::new();
    st.add_event(&now_2000(), &words_of("in 1 min a"), DateFormat::DMY).unwrap();
    let reply = st.tag_event(&words_of("0 week end")).unwrap();
    assert_eq!(reply, "Tagged event \"a\" with \"week end\"");
    assert_eq!(st.events[0].1.tag.as_deref(), Some("week end"));
    let reply = st.untag_event(&words_of("0")).unwrap();
    assert_eq!(reply, "Untagged event");
    assert_eq!(st.events[0].1.tag, None);

    assert_eq!(st.tag_event(&words_of("")), Err(AgendaError::NoArguments));
    assert_eq!(st.tag_event(&words_of("0")), Err(AgendaError::NoTag));
    assert_eq!(st.tag_event(&words_of("x y")), Err(AgendaError::InvalidEventNumber));
    assert_eq!(st.tag_event(&words_of("5 y")), Err(AgendaError::NoEventAtNumber));
    assert_eq!(st.untag_event(&words_of("")), Err(AgendaError::NoEventNumber));
    assert_eq!(st.untag_event(&words_of("5")), Err(AgendaError::NoEventAtNumber));
}

#[test]
fn one_shot_event_fires_once_then_is_removed() {
    let mut st = AgendaState::new();
    let t = Instant::new(2000, 1, 1, 8, 2);
    st.add_event(&now_2000(), &words_of("in 2 min buy milk"), DateFormat::DMY).unwrap();

    // One minute early: nothing fires.
    let (notes, changed) = st.sweep(&Instant::new(2000, 1, 1, 8, 1));
    assert!(notes.is_empty());
    assert!(!changed);
    assert_eq!(st.events.len(), 1);

    // At the instant: it fires exactly once and is removed.
    let (notes, changed) = st.sweep(&t);
    assert_eq!(notes, vec!["\u{23f0} buy milk".to_string()]);
    assert!(changed);
    assert_eq!(st.events.len(), 0);
}

#[test]
fn every_minute_event_is_never_removed() {
    let mut st = AgendaState::new();
    let line = Cronline::from_values([
        CronValue::Every,
        CronValue::Every,
        CronValue::Every,
        CronValue::Every,
        CronValue::Every,
    ]);
    st.events.push((
        0,
        AgendaEvent { cronline: line, text: "tick".to_string(), tag: None },
    ));
    let (notes, changed) = st.sweep(&now_2000());
    assert_eq!(notes, vec!["\u{23f0} tick".to_string()]);
    assert!(!changed);
    let (notes, _) = st.sweep(&Instant::new(2000, 1, 1, 8, 1));
    assert_eq!(notes.len(), 1);
    assert_eq!(st.events.len(), 1);
}

#[test]
fn next_occurrence_is_strictly_later() {
    // An event for 9am whose time has passed today fires tomorrow at 9am.
    let ev = AgendaEvent {
        cronline: Cronline::from_values([
            CronValue::On(0),
            CronValue::On(9),
            CronValue::Every,
            CronValue::Every,
            CronValue::Every,
        ]),
        text: "daily".to_string(),
        tag: None,
    };
    let t = ev.get_next_occurence(&Instant::new(2000, 1, 1, 9, 0)).unwrap();
    assert_eq!(t, Instant::new(2000, 1, 2, 9, 0));
    let t = ev.get_next_occurence(&Instant::new(2000, 1, 1, 8, 59)).unwrap();
    assert_eq!(t, Instant::new(2000, 1, 1, 9, 0));

    // A fixed pattern whose year range is exhausted never occurs.
    let old = AgendaEvent {
        cronline: Cronline::from_time(&Instant::new(1999, 5, 1, 9, 0)),
        text: "old".to_string(),
        tag: None,
    };
    assert_eq!(old.get_next_occurence(&now_2000()), None);

    // Day 31 in April is a dead branch: the search skips to a valid month.
    let ev = AgendaEvent {
        cronline: Cronline::from_values([
            CronValue::On(0),
            CronValue::On(9),
            CronValue::On(31),
            CronValue::Every,
            CronValue::Every,
        ]),
        text: "monthly".to_string(),
        tag: None,
    };
    let t = ev.get_next_occurence(&Instant::new(2000, 4, 1, 0, 0)).unwrap();
    assert_eq!(t, Instant::new(2000, 5, 31, 9, 0));
}

#[test]
fn process_dispatches_commands() {
    let mut st = AgendaState::new();
    let (reply, changed) = st.process(&now_2000(), &words_of("in 2 min buy milk"), DateFormat::DMY);
    assert!(changed);
    assert!(reply.starts_with("New event added (number 0)."));

    let (reply, changed) = st.process(&now_2000(), &words_of("/events"), DateFormat::DMY);
    assert!(!changed);
    assert_eq!(
        reply,
        "\n<b>Untagged events:</b>\n<pre>  01/01/2000 08:02 - [0] buy milk</pre>"
    );

    let (reply, changed) = st.process(&now_2000(), &words_of("/tag 0 errands"), DateFormat::DMY);
    assert!(changed);
    assert_eq!(reply, "Tagged event \"buy milk\" with \"errands\"");

    let (reply, _) = st.process(&now_2000(), &words_of("/events errands"), DateFormat::DMY);
    assert_eq!(
        reply,
        "<b>Tag</b> <code>errands</code>:\n<pre>  01/01/2000 08:02 - [0] buy milk</pre>"
    );

    let (reply, _) = st.process(&now_2000(), &words_of("/events nothing"), DateFormat::DMY);
    assert_eq!(reply, "Error: No events with tag \"nothing\"");

    let (reply, changed) = st.process(&now_2000(), &words_of("/del 0"), DateFormat::DMY);
    assert!(changed);
    assert_eq!(reply, "Removed event \"buy milk\"");

    let (reply, changed) = st.process(&now_2000(), &words_of("/nonsense"), DateFormat::DMY);
    assert!(!changed);
    assert_eq!(reply, "Unknown command");

    let (reply, _) = st.process(&now_2000(), &words_of("/help"), DateFormat::DMY);
    assert!(reply.contains("/untag"));

    let (reply, _) = st.process(&now_2000(), &words_of("at 13pm oven"), DateFormat::DMY);
    assert!(reply.starts_with("Error: "));
}

#[test]
fn listing_shows_tag_counts() {
    let mut st = AgendaState::new();
    st.add_event(&now_2000(), &words_of("in 1 min a"), DateFormat::DMY).unwrap();
    st.add_event(&now_2000(), &words_of("in 2 min b"), DateFormat::DMY).unwrap();
    st.tag_event(&words_of("0 chores")).unwrap();
    st.tag_event(&words_of("1 chores")).unwrap();
    let reply = st.print_events(DateFormat::DMY).unwrap();
    assert_eq!(
        reply,
        "<b>Tag</b> <code>chores</code>: 2 events\n\n<b>Untagged events:</b>"
    );

    let empty = AgendaState::new();
    assert_eq!(empty.print_events(DateFormat::DMY).unwrap(), "No events");
}

#[test]
fn pattern_rendering() {
    let line = Cronline::from_values([
        CronValue::On(0),
        CronValue::On(17),
        CronValue::Every,
        CronValue::Every,
        CronValue::Every,
    ]);
    assert_eq!(line.msg_format(DateFormat::DMY), "__/__/____ 17:00");
    let line = Cronline::from_time(&Instant::new(2000, 1, 8, 8, 5));
    assert_eq!(line.msg_format(DateFormat::DMY), "08/01/2000 08:05");
    assert_eq!(line.msg_format(DateFormat::MDY), "01/08/2000 08:05");
}

#[test]
fn time_diff_rendering() {
    assert_eq!(format_time_diff(0), "less than a minute");
    assert_eq!(format_time_diff(2), "2 minutes");
    assert_eq!(format_time_diff(61), "1 hours 1 minutes");
    assert_eq!(format_time_diff(1440), "1 days 0 hours 0 minutes");
    assert_eq!(format_time_diff(10080), "1 weeks 0 days 0 hours 0 minutes");
    assert_eq!(format_time_diff(10081), "1 weeks 0 days 0 hours 1 minutes");
}

#[test]
fn error_rendering() {
    assert_eq!(
        format_error(&AgendaError::AlreadySpecified(CronColumn::Day)),
        "Error: cannot parse time: Day already specified"
    );
    assert_eq!(
        format_error(&AgendaError::IncompleteCronline(vec![
            CronColumn::Day,
            CronColumn::Month
        ])),
        "Error: cannot parse time: Incomplete cronline: missing Day, Month"
    );
    assert_eq!(format_error(&AgendaError::NoMessage), "Error: no message specified");
    assert_eq!(
        format_error(&AgendaError::NeverOccurs),
        "Error: Invalid time: never occurs"
    );
}

#[test]
fn weekday_anchor() {
    // 2000-01-01 was a Saturday: five days from Monday.
    assert_eq!(weekday_of(&Instant::new(2000, 1, 1, 0, 0)), 5);
    // 2000-02-29 existed and was a Tuesday.
    assert_eq!(weekday_of(&Instant::new(2000, 2, 29, 0, 0)), 1);
    // 1900 was not a leap year: March 1st follows February 28th.
    assert_eq!(
        nag::instant::add_days(&Instant::new(1900, 2, 28, 0, 0), 1).unwrap(),
        Instant::new(1900, 3, 1, 0, 0)
    );
}

#[test]
fn out_of_range_minute_is_stored_but_never_fires() {
    // "9:75" matches the clock-time shape; the value is range-checked only
    // by calendar construction, so adding it fails with no occurrence.
    let mut st = AgendaState::new();
    let res = st.add_event(&now_2000(), &words_of("at 9:75 oven"), DateFormat::DMY);
    assert_eq!(res, Err(AgendaError::NeverOccurs));
}

#[test]
fn duplicate_removal_is_reported_per_occurrence() {
    let mut st = AgendaState::new();
    st.add_event(&now_2000(), &words_of("in 1 min a"), DateFormat::DMY).unwrap();
    let reply = st.remove_events(&words_of("0 0")).unwrap();
    assert_eq!(
        reply,
        "Removed event \"a\"\nError: no event at number \"0\""
    );
}
