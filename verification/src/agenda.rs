//! The store of live events and the command operations on it: adding a
//! parsed event under the smallest free identifier, removing, tagging and
//! listing events, and the once-per-minute sweep that fires matching events
//! and prunes those that can never fire again.

use vstd::prelude::*;

use crate::cron::{CronColumn, Cronline};
use crate::cronline_builder::{default_time_comment, spec_autofill, spec_autofill_defaulted};
use crate::errors::AgendaError;
use crate::event::{is_occurrence, AgendaEvent};
use crate::instant::{lemma_key_lt_implies_abs_lt, Instant};
use crate::textfmt::{dec_digits, join_from, join_words, u64_to_string};
use crate::time_parsing::{parse_cronline, spec_chain, CronlineResult};
use crate::cronline_builder::CronlineBuilder;
use crate::DateFormat;

verus! {

/// The store of live events, each under its identifier, kept in strictly
/// increasing identifier order.
pub struct AgendaState {
    pub events: Vec<(u64, AgendaEvent)>,
}

/// Identifiers strictly increase along the store.
pub open spec fn ids_sorted(s: Seq<(u64, AgendaEvent)>) -> bool {
    forall|i: int, j: int| 0 <= i < j < s.len() ==> (#[trigger] s[i]).0 < (#[trigger] s[j]).0
}

/// The first position whose entry does not carry its own index as its
/// identifier: on a sorted store, the smallest identifier not in use.
pub open spec fn free_slot(s: Seq<(u64, AgendaEvent)>, i: int) -> int
    decreases s.len() - i,
{
    if i < 0 || i >= s.len() || s[i].0 != i {
        i
    } else {
        free_slot(s, i + 1)
    }
}

/// On a sorted store every identifier is at least its index.
proof fn lemma_ids_lower(s: Seq<(u64, AgendaEvent)>, j: int)
    requires
        ids_sorted(s),
        0 <= j < s.len(),
    ensures
        s[j].0 >= j,
    decreases j,
{
    if j > 0 {
        lemma_ids_lower(s, j - 1);
    }
}

/// On a sorted store, the free slot is the smallest unused identifier: all
/// entries before it carry their own index, and the entry at it, if any,
/// carries a larger identifier.
proof fn lemma_free_slot(s: Seq<(u64, AgendaEvent)>, i: int)
    requires
        ids_sorted(s),
        0 <= i <= s.len(),
        forall|j: int| 0 <= j < i ==> (#[trigger] s[j]).0 == j,
    ensures
        i <= free_slot(s, i) <= s.len(),
        forall|j: int| 0 <= j < free_slot(s, i) ==> (#[trigger] s[j]).0 == j,
        free_slot(s, i) < s.len() ==> s[free_slot(s, i)].0 > free_slot(s, i),
    decreases s.len() - i,
{
    if i < s.len() && s[i].0 == i {
        lemma_free_slot(s, i + 1);
    } else if i < s.len() {
        lemma_ids_lower(s, i);
    }
}

impl AgendaState {
    /// A well-formed store: identifiers strictly increase.
    pub open spec fn wf(self) -> bool {
        ids_sorted(self.events@)
    }

    /// An empty store.
    pub fn new() -> (r: Self)
        ensures
            r.wf(),
            r.events@.len() == 0,
    {
        AgendaState { events: Vec::new() }
    }

    /// The smallest identifier not in use.
    fn find_free_id(&self) -> (r: usize)
        requires
            self.wf(),
        ensures
            r == free_slot(self.events@, 0),
            r <= self.events@.len(),
            forall|j: int| 0 <= j < r ==> (#[trigger] self.events@[j]).0 == j,
            r < self.events@.len() ==> self.events@[r as int].0 > r,
    {
        proof {
            lemma_free_slot(self.events@, 0);
        }
        let mut i: usize = 0;
        while i < self.events.len()
            invariant
                0 <= i <= self.events@.len(),
                forall|j: int| 0 <= j < i ==> (#[trigger] self.events@[j]).0 == j,
                free_slot(self.events@, i as int) == free_slot(self.events@, 0),
            ensures
                i == free_slot(self.events@, 0),
            decreases self.events@.len() - i,
        {
            if self.events[i].0 != i as u64 {
                break ;
            }
            i = i + 1;
        }
        i
    }
}

/// How long until an instant, in words: whole weeks, then days, hours and
/// minutes within their units, or "less than a minute" when no whole
/// minute is left; a unit is shown when the difference reaches it.
pub open spec fn spec_time_diff_parts(m: int) -> Seq<Seq<char>> {
    let weeks: Seq<Seq<char>> = if m / 10080 > 0 {
        seq![dec_digits(m / 10080) + " weeks"@]
    } else {
        Seq::empty()
    };
    let days: Seq<Seq<char>> = if m / 1440 > 0 {
        seq![dec_digits((m / 1440) % 7) + " days"@]
    } else {
        Seq::empty()
    };
    let hours: Seq<Seq<char>> = if m / 60 > 0 {
        seq![dec_digits((m / 60) % 24) + " hours"@]
    } else {
        Seq::empty()
    };
    let minutes: Seq<Seq<char>> = if m > 0 {
        seq![dec_digits(m % 60) + " minutes"@]
    } else {
        seq!["less than a minute"@]
    };
    weeks + days + hours + minutes
}

/// How long until an instant, in words.
pub open spec fn spec_format_time_diff(m: int) -> Seq<char> {
    join_words(spec_time_diff_parts(m), 0)
}

/// Renders a difference of `m` whole minutes in words.
pub fn format_time_diff(m: u64) -> (r: String)
    ensures
        r@ == spec_format_time_diff(m as int),
{
    proof {
        reveal_strlit(" weeks");
        reveal_strlit(" days");
        reveal_strlit(" hours");
        reveal_strlit(" minutes");
        reveal_strlit("less than a minute");
    }
    let mut parts: Vec<String> = Vec::new();
    let weeks = m / 10080;
    if weeks > 0 {
        let mut p = u64_to_string(weeks);
        p.append(" weeks");
        parts.push(p);
    }
    let days = m / 1440;
    if days > 0 {
        let mut p = u64_to_string(days % 7);
        p.append(" days");
        parts.push(p);
    }
    let hours = m / 60;
    if hours > 0 {
        let mut p = u64_to_string(hours % 24);
        p.append(" hours");
        parts.push(p);
    }
    if m > 0 {
        let mut p = u64_to_string(m % 60);
        p.append(" minutes");
        parts.push(p);
    } else {
        parts.push("less than a minute".to_owned());
    }
    proof {
        assert(parts.deep_view() =~~= spec_time_diff_parts(m as int));
    }
    let r = join_from(&parts, 0);
    r
}

/// The occurrence the search returns: the earliest one.
pub open spec fn spec_min_occurrence(cl: Cronline, now: Instant) -> Instant {
    choose|t: Instant|
        is_occurrence(cl, now, t) && (forall|t2: Instant|
            is_occurrence(cl, now, t2) ==> t.key() <= t2.key())
}

/// The reply to a successfully added event: the autofill comment when there
/// is one, the new identifier, and how long until the first occurrence.
pub open spec fn spec_added_reply(defaulted: bool, id: int, diff: int) -> Seq<char> {
    let pre: Seq<char> = if defaulted {
        default_time_comment() + "\n"@
    } else {
        Seq::empty()
    };
    pre + "New event added (number "@ + dec_digits(id) + ").\nNext occurence in "@
        + spec_format_time_diff(diff) + "."@
}

/// Everything adding an event promises: which error comes on which input,
/// and on success exactly where and how the new event stands in the store
/// and what the reply says.
pub open spec fn spec_add_event_post(
    olds: Seq<(u64, AgendaEvent)>,
    news: Seq<(u64, AgendaEvent)>,
    r: Result<String, AgendaError>,
    now: Instant,
    ws: Seq<Seq<char>>,
    date_format: DateFormat,
) -> bool {
    match spec_chain(ws, now, date_format, CronlineBuilder::spec_empty(), 0) {
        Result::Err(e) => r == Result::<String, AgendaError>::Err(e),
        Result::Ok((b, pos)) => {
            let filled = spec_autofill(b, now);
            if !filled.complete() {
                r matches Err(e) && e matches AgendaError::IncompleteCronline(_)
            } else if pos >= ws.len() {
                r == Result::<String, AgendaError>::Err(AgendaError::NoMessage)
            } else {
                let k = free_slot(olds, 0);
                let cl = filled.spec_built_line();
                &&& (r is Err ==> r == Result::<String, AgendaError>::Err(
                    AgendaError::NeverOccurs,
                ))
                &&& (r is Err <==> (forall|t2: Instant| !is_occurrence(cl, now, t2)))
                &&& (r is Ok ==> {
                    let ev = news[k].1;
                    &&& news.len() == olds.len() + 1
                    &&& (forall|j: int| 0 <= j < k ==> news[j] == olds[j])
                    &&& (forall|j: int| k < j < news.len() ==> news[j] == olds[j - 1])
                    &&& news[k].0 == k
                    &&& ev.cronline == cl
                    &&& ev.text@ == join_words(ws, pos)
                    &&& ev.tag is None
                    &&& is_occurrence(cl, now, spec_min_occurrence(cl, now))
                    &&& r->Ok_0@ == spec_added_reply(
                        spec_autofill_defaulted(b, now),
                        k,
                        spec_min_occurrence(cl, now).abs_minutes() - now.abs_minutes(),
                    )
                })
            }
        },
    }
}

impl AgendaState {
    /// Adds the event a command describes: parses the time expression, takes
    /// the words left over as the message (there must be some), keys the
    /// event by the smallest free identifier, and rejects an event with no
    /// future occurrence so no dead event is ever stored.
    pub fn add_event(&mut self, now: &Instant, words: &Vec<String>, date_format: DateFormat) -> (r:
        Result<String, AgendaError>)
        requires
            old(self).wf(),
            now.valid(),
        ensures
            final(self).wf(),
            r is Err ==> *final(self) == *old(self),
            spec_add_event_post(
                old(self).events@,
                final(self).events@,
                r,
                *now,
                words.deep_view(),
                date_format,
            ),
    {
        proof {
            reveal_strlit("\n");
            reveal_strlit("New event added (number ");
            reveal_strlit(").\nNext occurence in ");
            reveal_strlit(".");
        }
        let parsed = match parse_cronline(now, words, date_format) {
            Result::Ok(p) => p,
            Result::Err(e) => {
                return Err(e);
            },
        };
        let CronlineResult { cronline, remaining_words, comment } = parsed;
        if remaining_words.len() == 0 {
            proof {
                let ws = words.deep_view();
                let ch = spec_chain(ws, *now, date_format, CronlineBuilder::spec_empty(), 0);
                assert(ws.skip(ch->Ok_0.1).len() == 0);
            }
            return Err(AgendaError::NoMessage);
        }
        let new_id = self.find_free_id();
        let text = join_from(&remaining_words, 0);
        proof {
            let ws = words.deep_view();
            let ch = spec_chain(ws, *now, date_format, CronlineBuilder::spec_empty(), 0);
            let pos = ch->Ok_0.1;
            lemma_join_skip(ws, pos);
            assert(remaining_words.deep_view() == ws.skip(pos));
        }
        let event = AgendaEvent { cronline, text, tag: None };
        let occ = match event.get_next_occurence(now) {
            Option::Some(t) => t,
            Option::None => {
                proof {
                    let ws = words.deep_view();
                    let ch = spec_chain(ws, *now, date_format, CronlineBuilder::spec_empty(), 0);
                    let filled = spec_autofill(ch->Ok_0.0, *now);
                    assert(ch is Ok);
                    assert(filled.complete());
                    assert(event.cronline == filled.spec_built_line());
                    assert(forall|t2: Instant|
                        !is_occurrence(filled.spec_built_line(), *now, t2));
                }
                return Err(AgendaError::NeverOccurs);
            },
        };
        let ghost olds = self.events@;
        self.events.insert(new_id, (new_id as u64, event));
        proof {
            let news = self.events@;
            let k = new_id as int;
            assert forall|i: int, j: int| 0 <= i < j < news.len() implies (#[trigger] news[i]).0 < (
            #[trigger] news[j]).0 by {
                if i < k && j < k {
                } else if i < k && j == k {
                    assert(news[i].0 == i);
                } else if i < k && j > k {
                    assert(news[i].0 == olds[i].0 && news[j].0 == olds[j - 1].0);
                } else if i == k && j > k {
                    assert(news[j].0 == olds[j - 1].0);
                    if k < olds.len() {
                        lemma_ids_lower(olds, j - 1);
                        assert(olds[j - 1].0 >= olds[k].0);
                    }
                } else {
                    assert(news[i].0 == olds[i - 1].0 && news[j].0 == olds[j - 1].0);
                }
            }
        }
        // The reply: the comment when the time of day was defaulted, the new
        // identifier, and how long until the first occurrence.
        proof {
            lemma_key_lt_implies_abs_lt(*now, occ);
            let t = spec_min_occurrence(event.cronline, *now);
            assert(is_occurrence(event.cronline, *now, t) && (forall|t2: Instant|
                is_occurrence(event.cronline, *now, t2) ==> t.key() <= t2.key())) by {
                assert(is_occurrence(event.cronline, *now, occ) && (forall|t2: Instant|
                    is_occurrence(event.cronline, *now, t2) ==> occ.key() <= t2.key()));
            }
            assert(t.key() == occ.key());
            crate::instant::lemma_key_injective(t, occ);
        }
        let diff_minutes = crate::instant::abs_minutes_of(&occ) - crate::instant::abs_minutes_of(
            now,
        );
        let diff_text = format_time_diff(diff_minutes);
        let mut reply = String::new();
        match comment {
            Option::Some(c) => {
                reply.append(c.as_str());
                reply.append("\n");
            },
            Option::None => {},
        }
        reply.append("New event added (number ");
        let ids = u64_to_string(new_id as u64);
        reply.append(ids.as_str());
        reply.append(").\nNext occurence in ");
        reply.append(diff_text.as_str());
        reply.append(".");
        proof {
            assert(reply@ =~= spec_added_reply(
                spec_autofill_defaulted(
                    spec_chain(
                        words.deep_view(),
                        *now,
                        date_format,
                        CronlineBuilder::spec_empty(),
                        0,
                    )->Ok_0.0,
                    *now,
                ),
                new_id as int,
                spec_min_occurrence(event.cronline, *now).abs_minutes() - now.abs_minutes(),
            ));
        }
        Ok(reply)
    }
}

/// The event identifier a word names: all digits, nonempty, within `u64`.
pub open spec fn spec_parse_u64(w: Seq<char>) -> Option<u64> {
    if w.len() > 0 && crate::textfmt::all_digits(w) && crate::textfmt::digits_val(w) <= u64::MAX {
        Some(crate::textfmt::digits_val(w) as u64)
    } else {
        None
    }
}

/// Parses a word as an event identifier.
fn parse_event_id(w: &str) -> (r: Option<u64>)
    ensures
        r == spec_parse_u64(w@),
{
    let cs = crate::textfmt::chars_of(w);
    let k = crate::textfmt::digit_run_chars(&cs, 0);
    proof {
        crate::textfmt::lemma_digit_run_facts(w@, 0);
    }
    if cs.len() == 0 || k != cs.len() {
        proof {
            if cs.len() > 0 && k < cs.len() && crate::textfmt::all_digits(w@) {
                assert(crate::textfmt::is_digit(w@[k as int]));
            }
        }
        return None;
    }
    proof {
        assert(w@.subrange(0, w@.len() as int) =~= w@);
    }
    crate::textfmt::digits_value_chars(&cs, 0, k)
}

/// The identifiers a removal command names, when every word is a number.
pub open spec fn spec_parse_ids(ws: Seq<Seq<char>>) -> Option<Seq<u64>>
    decreases ws.len(),
{
    if ws.len() == 0 {
        Some(Seq::empty())
    } else {
        match spec_parse_u64(ws[0]) {
            Option::None => None,
            Option::Some(v) => match spec_parse_ids(ws.drop_first()) {
                Option::None => None,
                Option::Some(rest) => Some(seq![v] + rest),
            },
        }
    }
}

/// The position of an identifier in the store, or the store's length when
/// it is not there.
pub open spec fn find_id(s: Seq<(u64, AgendaEvent)>, id: u64, i: int) -> int
    decreases s.len() - i,
{
    if i < 0 || i >= s.len() {
        s.len() as int
    } else if s[i].0 == id {
        i
    } else {
        find_id(s, id, i + 1)
    }
}

/// The position of an identifier is a position, and holds the identifier
/// when it is within the store.
proof fn lemma_find_id(s: Seq<(u64, AgendaEvent)>, id: u64, i: int)
    requires
        0 <= i <= s.len(),
    ensures
        i <= find_id(s, id, i) <= s.len(),
        find_id(s, id, i) < s.len() ==> s[find_id(s, id, i)].0 == id,
        forall|j: int| i <= j < find_id(s, id, i) ==> (#[trigger] s[j]).0 != id,
    decreases s.len() - i,
{
    if i < s.len() && s[i].0 != id {
        lemma_find_id(s, id, i + 1);
    }
}

/// The line a removal command reports for one identifier.
pub open spec fn spec_removed_line(s: Seq<(u64, AgendaEvent)>, id: u64) -> Seq<char> {
    let i = find_id(s, id, 0);
    if i < s.len() {
        "Removed event \""@ + s[i].1.text@ + "\""@
    } else {
        "Error: no event at number \""@ + dec_digits(id as int) + "\""@
    }
}

/// What removing a list of identifiers leaves, one at a time in order, and
/// the lines reported: an identifier not in the store is reported and does
/// not abort the rest.
pub open spec fn spec_remove_ids(s: Seq<(u64, AgendaEvent)>, ids: Seq<u64>) -> (
    Seq<(u64, AgendaEvent)>,
    Seq<Seq<char>>,
)
    decreases ids.len(),
{
    if ids.len() == 0 {
        (s, Seq::empty())
    } else {
        let id = ids[0];
        let i = find_id(s, id, 0);
        let line = spec_removed_line(s, id);
        let s2 = if i < s.len() {
            s.remove(i)
        } else {
            s
        };
        let rest = spec_remove_ids(s2, ids.drop_first());
        (rest.0, seq![line] + rest.1)
    }
}

/// Removing one entry keeps the identifiers strictly increasing.
proof fn lemma_remove_sorted(s: Seq<(u64, AgendaEvent)>, i: int)
    requires
        ids_sorted(s),
        0 <= i < s.len(),
    ensures
        ids_sorted(s.remove(i)),
{
    let t = s.remove(i);
    assert forall|a: int, b: int| 0 <= a < b < t.len() implies (#[trigger] t[a]).0 < (
    #[trigger] t[b]).0 by {
        if b < i {
            assert(t[a] == s[a] && t[b] == s[b]);
        } else if a < i {
            assert(t[a] == s[a] && t[b] == s[b + 1]);
        } else {
            assert(t[a] == s[a + 1] && t[b] == s[b + 1]);
        }
    }
}

impl AgendaState {
    /// The position of an identifier in the store, if it is there.
    fn find_index(&self, id: u64) -> (r: usize)
        ensures
            r == find_id(self.events@, id, 0),
            r <= self.events@.len(),
            r < self.events@.len() ==> self.events@[r as int].0 == id,
    {
        proof {
            lemma_find_id(self.events@, id, 0);
        }
        let mut i: usize = 0;
        while i < self.events.len()
            invariant
                0 <= i <= self.events@.len(),
                find_id(self.events@, id, i as int) == find_id(self.events@, id, 0),
            ensures
                i == find_id(self.events@, id, 0),
            decreases self.events@.len() - i,
        {
            if self.events[i].0 == id {
                break ;
            }
            i = i + 1;
        }
        i
    }

    /// Removes the events a command names by number: each named event is
    /// removed, an unknown number is reported in its line without aborting
    /// the batch, and the lines are reported in command order.
    pub fn remove_events(&mut self, words: &Vec<String>) -> (r: Result<String, AgendaError>)
        requires
            old(self).wf(),
        ensures
            final(self).wf(),
            r is Err ==> *final(self) == *old(self),
            spec_remove_events_post(old(self).events@, final(self).events@, r, words.deep_view()),
    {
        proof {
            reveal_strlit("Removed event \"");
            reveal_strlit("Error: no event at number \"");
            reveal_strlit("\"");
        }
        if words.len() == 0 {
            return Err(AgendaError::NoEventNumber);
        }
        let ghost ws = words.deep_view();
        proof {
            lemma_parse_ids_all(ws);
        }
        let mut ids: Vec<u64> = Vec::new();
        let mut i: usize = 0;
        while i < words.len()
            invariant
                0 <= i <= ws.len(),
                ws == words.deep_view(),
                ids@.len() == i,
                *self == *old(self),
                self.wf(),
                spec_parse_ids(ws) is Some <==> (forall|j: int|
                    0 <= j < ws.len() ==> spec_parse_u64(#[trigger] ws[j]) is Some),
                forall|j: int| 0 <= j < i ==> Some(#[trigger] ids@[j]) == spec_parse_u64(ws[j]),
            decreases ws.len() - i,
        {
            match parse_event_id(words[i].as_str()) {
                Option::Some(v) => {
                    ids.push(v);
                },
                Option::None => {
                    proof {
                        if spec_parse_ids(ws) is Some {
                            assert(spec_parse_u64(ws[i as int]) is Some);
                        }
                    }
                    return Err(AgendaError::InvalidEventNumber);
                },
            }
            i = i + 1;
        }
        proof {
            assert forall|j: int| 0 <= j < ws.len() implies spec_parse_u64(
                #[trigger] ws[j],
            ) is Some by {
                assert(Some(ids@[j]) == spec_parse_u64(ws[j]));
            }
            lemma_parse_ids_pointwise(ws, ids@);
        }
        // Remove each named event in order, reporting each line.
        let ghost s0 = self.events@;
        let ghost idseq = ids@;
        proof {
            assert(idseq.skip(0) =~= idseq);
            let done = spec_remove_ids(s0, idseq);
            assert(Seq::<Seq<char>>::empty() + done.1 =~= done.1);
        }
        let mut lines: Vec<String> = Vec::new();
        let mut j: usize = 0;
        while j < ids.len()
            invariant
                old(self).wf(),
                self.wf(),
                0 <= j <= idseq.len(),
                idseq == ids@,
                ({
                    let done = spec_remove_ids(s0, idseq);
                    let todo = spec_remove_ids(self.events@, idseq.skip(j as int));
                    &&& todo.0 == done.0
                    &&& lines.deep_view() + todo.1 == done.1
                }),
            decreases idseq.len() - j,
        {
            let ghost pre = self.events@;
            let id = ids[j];
            assert(idseq.skip(j as int)[0] == id);
            let k = self.find_index(id);
            let mut line = String::new();
            if k < self.events.len() {
                line.append("Removed event \"");
                let (_eid, ev) = self.events.remove(k);
                line.append(ev.text.as_str());
                line.append("\"");
                proof {
                    lemma_remove_sorted(pre, k as int);
                    assert(line@ =~= spec_removed_line(pre, id));
                }
            } else {
                line.append("Error: no event at number \"");
                let ds = u64_to_string(id);
                line.append(ds.as_str());
                line.append("\"");
                proof {
                    assert(line@ =~= spec_removed_line(pre, id));
                }
            }
            lines.push(line);
            proof {
                assert(idseq.skip(j as int).drop_first() =~= idseq.skip(j + 1 as int));
                let done = spec_remove_ids(s0, idseq);
                let todo_new = spec_remove_ids(self.events@, idseq.skip(j + 1 as int));
                assert(lines.deep_view() =~= lines.deep_view().subrange(
                    0,
                    lines.deep_view().len() as int - 1,
                ).push(lines.deep_view().last()));
                assert(lines.deep_view() + todo_new.1 =~= done.1);
            }
            j = j + 1;
        }
        proof {
            assert(idseq.skip(j as int).len() == 0);
            let done = spec_remove_ids(s0, idseq);
            assert(lines.deep_view() + Seq::<Seq<char>>::empty() =~= lines.deep_view());
            assert(lines.deep_view() == done.1);
        }
        let reply = crate::textfmt::join_lines_from(&lines, 0);
        Ok(reply)
    }
}

/// Everything removing events promises: which error comes on which input,
/// and on success the sequential removal with its report lines.
pub open spec fn spec_remove_events_post(
    olds: Seq<(u64, AgendaEvent)>,
    news: Seq<(u64, AgendaEvent)>,
    r: Result<String, AgendaError>,
    ws: Seq<Seq<char>>,
) -> bool {
    &&& (ws.len() == 0 ==> r == Result::<String, AgendaError>::Err(AgendaError::NoEventNumber))
    &&& (ws.len() > 0 && spec_parse_ids(ws) is None ==> r == Result::<String, AgendaError>::Err(
        AgendaError::InvalidEventNumber,
    ))
    &&& (ws.len() > 0 && spec_parse_ids(ws) is Some ==> {
        let ids = spec_parse_ids(ws)->Some_0;
        let (left, lines) = spec_remove_ids(olds, ids);
        &&& r is Ok
        &&& news == left
        &&& r->Ok_0@ == crate::textfmt::join_lines(lines, 0)
    })
}

/// Everything tagging an event promises.
pub open spec fn spec_tag_event_post(
    olds: Seq<(u64, AgendaEvent)>,
    news: Seq<(u64, AgendaEvent)>,
    r: Result<String, AgendaError>,
    ws: Seq<Seq<char>>,
) -> bool {
    &&& (ws.len() == 0 ==> r == Result::<String, AgendaError>::Err(AgendaError::NoArguments))
    &&& (ws.len() == 1 ==> r == Result::<String, AgendaError>::Err(AgendaError::NoTag))
    &&& (ws.len() >= 2 && spec_parse_u64(ws[0]) is None ==> r == Result::<String, AgendaError>::Err(
        AgendaError::InvalidEventNumber,
    ))
    &&& (ws.len() >= 2 && spec_parse_u64(ws[0]) is Some ==> {
        let id = spec_parse_u64(ws[0])->Some_0;
        let i = find_id(olds, id, 0);
        if i == olds.len() {
            r == Result::<String, AgendaError>::Err(AgendaError::NoEventAtNumber)
        } else {
            let ev = olds[i].1;
            let tag = join_words(ws, 1);
            &&& r is Ok
            &&& news.len() == olds.len()
            &&& (forall|j: int| 0 <= j < news.len() && j != i ==> news[j] == olds[j])
            &&& news[i].0 == id
            &&& news[i].1.cronline == ev.cronline
            &&& news[i].1.text@ == ev.text@
            &&& news[i].1.tag matches Some(t) && t@ == tag
            &&& r->Ok_0@ == "Tagged event \""@ + ev.text@ + "\" with \""@ + tag + "\""@
        }
    })
}

/// Everything untagging an event promises.
pub open spec fn spec_untag_event_post(
    olds: Seq<(u64, AgendaEvent)>,
    news: Seq<(u64, AgendaEvent)>,
    r: Result<String, AgendaError>,
    ws: Seq<Seq<char>>,
) -> bool {
    &&& (ws.len() == 0 ==> r == Result::<String, AgendaError>::Err(AgendaError::NoEventNumber))
    &&& (ws.len() >= 1 && spec_parse_u64(ws[0]) is None ==> r == Result::<String, AgendaError>::Err(
        AgendaError::InvalidEventNumber,
    ))
    &&& (ws.len() >= 1 && spec_parse_u64(ws[0]) is Some ==> {
        let id = spec_parse_u64(ws[0])->Some_0;
        let i = find_id(olds, id, 0);
        if i == olds.len() {
            r == Result::<String, AgendaError>::Err(AgendaError::NoEventAtNumber)
        } else {
            let ev = olds[i].1;
            &&& r is Ok
            &&& news.len() == olds.len()
            &&& (forall|j: int| 0 <= j < news.len() && j != i ==> news[j] == olds[j])
            &&& news[i].0 == id
            &&& news[i].1.cronline == ev.cronline
            &&& news[i].1.text@ == ev.text@
            &&& news[i].1.tag is None
            &&& r->Ok_0@ == "Untagged event"@
        }
    })
}

/// Replacing an entry by one with the same identifier keeps the
/// identifiers strictly increasing.
proof fn lemma_update_sorted(s: Seq<(u64, AgendaEvent)>, i: int, p: (u64, AgendaEvent))
    requires
        ids_sorted(s),
        0 <= i < s.len(),
        p.0 == s[i].0,
    ensures
        ids_sorted(s.update(i, p)),
{
    let t = s.update(i, p);
    assert forall|a: int, b: int| 0 <= a < b < t.len() implies (#[trigger] t[a]).0 < (
    #[trigger] t[b]).0 by {
        assert(s[a].0 < s[b].0);
    }
}

impl AgendaState {
    /// Tags an event: the first word names the event, the rest joined is
    /// the tag, and both must be there.
    pub fn tag_event(&mut self, words: &Vec<String>) -> (r: Result<String, AgendaError>)
        requires
            old(self).wf(),
        ensures
            final(self).wf(),
            r is Err ==> *final(self) == *old(self),
            spec_tag_event_post(old(self).events@, final(self).events@, r, words.deep_view()),
    {
        proof {
            reveal_strlit("Tagged event \"");
            reveal_strlit("\" with \"");
            reveal_strlit("\"");
        }
        if words.len() == 0 {
            return Err(AgendaError::NoArguments);
        }
        if words.len() == 1 {
            return Err(AgendaError::NoTag);
        }
        let id = match parse_event_id(words[0].as_str()) {
            Option::Some(v) => v,
            Option::None => {
                return Err(AgendaError::InvalidEventNumber);
            },
        };
        let i = self.find_index(id);
        if i == self.events.len() {
            return Err(AgendaError::NoEventAtNumber);
        }
        let tag = join_from(words, 1);
        let ghost olds = self.events@;
        let (eid, ev) = self.events.remove(i);
        let mut reply = String::new();
        reply.append("Tagged event \"");
        reply.append(ev.text.as_str());
        reply.append("\" with \"");
        reply.append(tag.as_str());
        reply.append("\"");
        let newev = AgendaEvent { cronline: ev.cronline, text: ev.text, tag: Some(tag) };
        self.events.insert(i, (eid, newev));
        proof {
            assert(self.events@ =~= olds.update(i as int, (eid, newev)));
            lemma_update_sorted(olds, i as int, (eid, newev));
            assert(self.events@ =~= olds.update(i as int, (eid, newev)).update(
                i as int,
                self.events@[i as int],
            ));
            assert(reply@ =~= "Tagged event \""@ + ev.text@ + "\" with \""@ + join_words(
                words.deep_view(),
                1,
            ) + "\""@);
        }
        Ok(reply)
    }

    /// Clears an event's tag: the first word names the event.
    pub fn untag_event(&mut self, words: &Vec<String>) -> (r: Result<String, AgendaError>)
        requires
            old(self).wf(),
        ensures
            final(self).wf(),
            r is Err ==> *final(self) == *old(self),
            spec_untag_event_post(old(self).events@, final(self).events@, r, words.deep_view()),
    {
        proof {
            reveal_strlit("Untagged event");
        }
        if words.len() == 0 {
            return Err(AgendaError::NoEventNumber);
        }
        let id = match parse_event_id(words[0].as_str()) {
            Option::Some(v) => v,
            Option::None => {
                return Err(AgendaError::InvalidEventNumber);
            },
        };
        let i = self.find_index(id);
        if i == self.events.len() {
            return Err(AgendaError::NoEventAtNumber);
        }
        let ghost olds = self.events@;
        let (eid, ev) = self.events.remove(i);
        let newev = AgendaEvent { cronline: ev.cronline, text: ev.text, tag: None };
        self.events.insert(i, (eid, newev));
        proof {
            assert(self.events@ =~= olds.update(i as int, (eid, newev)));
            lemma_update_sorted(olds, i as int, (eid, newev));
        }
        Ok("Untagged event".to_owned())
    }
}

/// What one sweep of the store at an instant does, entry by entry in
/// identifier order: an event whose pattern matches the instant fires (its
/// notification is emitted), and a fired event with no occurrence left
/// after the instant is removed.
pub open spec fn spec_sweep(s: Seq<(u64, AgendaEvent)>, now: Instant) -> (
    Seq<(u64, AgendaEvent)>,
    Seq<Seq<char>>,
)
    decreases s.len(),
{
    if s.len() == 0 {
        (s, Seq::empty())
    } else {
        let p = s[0];
        let rest = spec_sweep(s.drop_first(), now);
        if p.1.cronline.spec_matches(now) {
            let note = "\u{23f0} "@ + p.1.text@;
            if forall|t2: Instant| !is_occurrence(p.1.cronline, now, t2) {
                (rest.0, seq![note] + rest.1)
            } else {
                (seq![p] + rest.0, seq![note] + rest.1)
            }
        } else {
            (seq![p] + rest.0, rest.1)
        }
    }
}

/// A sweep keeps the store sorted, and keeps only entries of the store.
proof fn lemma_sweep_sorted(s: Seq<(u64, AgendaEvent)>, now: Instant)
    requires
        ids_sorted(s),
    ensures
        ids_sorted(spec_sweep(s, now).0),
        forall|k: int|
            0 <= k < spec_sweep(s, now).0.len() ==> exists|j: int|
                0 <= j < s.len() && #[trigger] spec_sweep(s, now).0[k] == s[j],
    decreases s.len(),
{
    if s.len() > 0 {
        let rest = s.drop_first();
        assert forall|a: int, b: int| 0 <= a < b < rest.len() implies (#[trigger] rest[a]).0 < (
        #[trigger] rest[b]).0 by {
            assert(rest[a] == s[a + 1] && rest[b] == s[b + 1]);
        }
        lemma_sweep_sorted(rest, now);
        let kept = spec_sweep(s, now).0;
        let kr = spec_sweep(rest, now).0;
        assert forall|k: int|
            0 <= k < kept.len() implies exists|j: int|
            0 <= j < s.len() && #[trigger] kept[k] == s[j] by {
            if kept.len() == kr.len() + 1 && kept[0] == s[0] {
                if k > 0 {
                    assert(kept[k] == kr[k - 1]);
                    let j = choose|j: int| 0 <= j < rest.len() && kr[k - 1] == rest[j];
                    assert(kept[k] == s[j + 1]);
                }
            } else {
                let j = choose|j: int| 0 <= j < rest.len() && kr[k] == rest[j];
                assert(kept[k] == s[j + 1]);
            }
        }
        assert forall|a: int, b: int| 0 <= a < b < kept.len() implies (#[trigger] kept[a]).0 < (
        #[trigger] kept[b]).0 by {
            if kept.len() == kr.len() + 1 && kept[0] == s[0] {
                if a == 0 {
                    assert(kept[b] == kr[b - 1]);
                    let j = choose|j: int| 0 <= j < rest.len() && kr[b - 1] == rest[j];
                    assert(s[0].0 < s[j + 1].0);
                } else {
                    assert(kept[a] == kr[a - 1] && kept[b] == kr[b - 1]);
                }
            } else {
                assert(kept[a] == kr[a] && kept[b] == kr[b]);
            }
        }
    }
}

impl AgendaState {
    /// One sweep at one instant, run once per elapsed minute: every event
    /// whose pattern matches the instant fires, yielding its notification
    /// in identifier order, and a fired event with no occurrence left is
    /// removed. Reports whether the store changed.
    pub fn sweep(&mut self, now: &Instant) -> (r: (Vec<String>, bool))
        requires
            old(self).wf(),
            now.valid(),
        ensures
            final(self).wf(),
            final(self).events@ == spec_sweep(old(self).events@, *now).0,
            r.0.deep_view() == spec_sweep(old(self).events@, *now).1,
            r.1 == (final(self).events@.len() != old(self).events@.len()),
    {
        let ghost s0 = self.events@;
        proof {
            lemma_sweep_sorted(s0, *now);
        }
        let mut kept: Vec<(u64, AgendaEvent)> = Vec::new();
        let mut notes: Vec<String> = Vec::new();
        let old_len = self.events.len();
        proof {
            reveal_strlit("\u{23f0} ");
            let full = spec_sweep(s0, *now);
            assert(kept@ + full.0 =~= full.0);
            assert(notes.deep_view() + full.1 =~~= full.1);
        }
        while self.events.len() > 0
            invariant
                now.valid(),
                kept@ + spec_sweep(self.events@, *now).0 == spec_sweep(s0, *now).0,
                notes.deep_view() + spec_sweep(self.events@, *now).1 == spec_sweep(s0, *now).1,
            decreases self.events@.len(),
        {
            let ghost pre = self.events@;
            let (id, ev) = self.events.remove(0);
            proof {
                assert(pre.drop_first() =~= self.events@);
                assert(pre[0] == (id, ev));
            }
            let fires = ev.check_fires(now);
            if fires {
                let mut note = "\u{23f0} ".to_owned();
                note.append(ev.text.as_str());
                proof {
                    reveal_strlit("\u{23f0} ");
                }
                notes.push(note);
                let gone = ev.get_next_occurence(now).is_none();
                if gone {
                    proof {
                        assert(notes.deep_view() =~~= notes.deep_view().subrange(
                            0,
                            notes.deep_view().len() - 1,
                        ) + seq![note@]);
                        assert(notes.deep_view().subrange(0, notes.deep_view().len() - 1)
                            + (seq![note@] + spec_sweep(self.events@, *now).1) =~~= notes.deep_view()
                            + spec_sweep(self.events@, *now).1);
                    }
                } else {
                    kept.push((id, ev));
                    proof {
                        assert(kept@ =~= kept@.subrange(0, kept@.len() - 1) + seq![(id, ev)]);
                        assert(kept@.subrange(0, kept@.len() - 1) + (seq![(id, ev)] + spec_sweep(
                            self.events@,
                            *now,
                        ).0) =~= kept@ + spec_sweep(self.events@, *now).0);
                        assert(notes.deep_view() =~~= notes.deep_view().subrange(
                            0,
                            notes.deep_view().len() - 1,
                        ) + seq![note@]);
                        assert(notes.deep_view().subrange(0, notes.deep_view().len() - 1)
                            + (seq![note@] + spec_sweep(self.events@, *now).1) =~~= notes.deep_view()
                            + spec_sweep(self.events@, *now).1);
                    }
                }
            } else {
                kept.push((id, ev));
                proof {
                    assert(kept@ =~= kept@.subrange(0, kept@.len() - 1) + seq![(id, ev)]);
                    assert(kept@.subrange(0, kept@.len() - 1) + (seq![(id, ev)] + spec_sweep(
                        self.events@,
                        *now,
                    ).0) =~= kept@ + spec_sweep(self.events@, *now).0);
                }
            }
        }
        proof {
            assert(kept@ + spec_sweep(self.events@, *now).0 =~= kept@);
            assert(notes.deep_view() + spec_sweep(self.events@, *now).1 =~~= notes.deep_view());
        }
        self.events = kept;
        let changed = self.events.len() != old_len;
        (notes, changed)
    }
}

/// The line one event renders to in a listing.
pub open spec fn spec_event_line(p: (u64, AgendaEvent), df: DateFormat) -> Seq<char> {
    "<pre>  "@ + crate::cron::spec_msg_format(p.1.cronline, df) + " - ["@ + dec_digits(
        p.0 as int,
    ) + "] "@ + p.1.text@ + "</pre>"@
}

/// The listing lines of a selection of events, in the order given.
pub open spec fn spec_events_print_list(s: Seq<(u64, AgendaEvent)>, df: DateFormat) -> Seq<
    Seq<char>,
> {
    Seq::new(s.len(), |i: int| spec_event_line(s[i], df))
}

/// Renders a selection of events, one line each, in the order given (the
/// store keeps identifier order).
pub fn make_events_print_list(events: &Vec<(u64, AgendaEvent)>, date_format: DateFormat) -> (r:
    Vec<String>)
    ensures
        r.deep_view() == spec_events_print_list(events@, date_format),
{
    proof {
        reveal_strlit("<pre>  ");
        reveal_strlit(" - [");
        reveal_strlit("] ");
        reveal_strlit("</pre>");
    }
    let mut r: Vec<String> = Vec::new();
    let mut i: usize = 0;
    while i < events.len()
        invariant
            0 <= i <= events@.len(),
            r@.len() == i,
            forall|j: int| 0 <= j < i ==> r@[j]@ == spec_event_line(#[trigger] events@[j], date_format),
        decreases events@.len() - i,
    {
        proof {
            reveal_strlit("<pre>  ");
            reveal_strlit(" - [");
            reveal_strlit("] ");
            reveal_strlit("</pre>");
        }
        let mut line = "<pre>  ".to_owned();
        let fmt = events[i].1.cronline.msg_format(date_format);
        line.append(fmt.as_str());
        line.append(" - [");
        let ids = u64_to_string(events[i].0);
        line.append(ids.as_str());
        line.append("] ");
        line.append(events[i].1.text.as_str());
        line.append("</pre>");
        proof {
            assert(line@ =~= spec_event_line(events@[i as int], date_format));
        }
        r.push(line);
        i = i + 1;
    }
    proof {
        assert(r.deep_view() =~~= spec_events_print_list(events@, date_format));
    }
    r
}

/// Whether some earlier entry already carries this tag.
pub open spec fn spec_tag_seen(s: Seq<(u64, AgendaEvent)>, upto: int, t: Seq<char>) -> bool {
    exists|j: int|
        0 <= j < upto && (#[trigger] s[j]).1.tag is Some && s[j].1.tag->Some_0@ == t
}

/// How many events carry this tag.
pub open spec fn spec_tag_count(s: Seq<(u64, AgendaEvent)>, t: Seq<char>) -> int
    decreases s.len(),
{
    if s.len() == 0 {
        0
    } else {
        (if s.last().1.tag is Some && s.last().1.tag->Some_0@ == t {
            1int
        } else {
            0int
        }) + spec_tag_count(s.drop_last(), t)
    }
}

/// The tag summary lines from position `i` on: one line per distinct tag,
/// in order of first appearance, with the count over the whole store.
pub open spec fn spec_tags_print_list(s: Seq<(u64, AgendaEvent)>, i: int) -> Seq<Seq<char>>
    decreases s.len() - i,
{
    if i < 0 || i >= s.len() {
        Seq::empty()
    } else {
        match s[i].1.tag {
            Option::None => spec_tags_print_list(s, i + 1),
            Option::Some(t) => if spec_tag_seen(s, i, t@) {
                spec_tags_print_list(s, i + 1)
            } else {
                seq![spec_tag_line(s, t@)] + spec_tags_print_list(s, i + 1)
            },
        }
    }
}

/// The summary line of one tag.
pub open spec fn spec_tag_line(s: Seq<(u64, AgendaEvent)>, t: Seq<char>) -> Seq<char> {
    "<b>Tag</b> <code>"@ + t + "</code>: "@ + dec_digits(spec_tag_count(s, t)) + " events"@
}

/// How many events carry this tag.
fn count_tag(events: &Vec<(u64, AgendaEvent)>, t: &String) -> (r: u64)
    ensures
        r == spec_tag_count(events@, t@),
{
    let mut r: u64 = 0;
    let mut i: usize = 0;
    while i < events.len()
        invariant
            0 <= i <= events@.len(),
            r == spec_tag_count(events@.subrange(0, i as int), t@),
            r <= i,
        decreases events@.len() - i,
    {
        let hit = match &events[i].1.tag {
            Option::Some(tg) => crate::textfmt::str_eq(tg.as_str(), t.as_str()),
            Option::None => false,
        };
        proof {
            let pre = events@.subrange(0, i as int);
            let cur = events@.subrange(0, i + 1 as int);
            assert(cur.drop_last() =~= pre);
            assert(cur.last() == events@[i as int]);
        }
        if hit {
            r = r + 1;
        }
        i = i + 1;
    }
    proof {
        assert(events@.subrange(0, events@.len() as int) =~= events@);
    }
    r
}

/// Renders the tag summary: one line per distinct tag, in order of first
/// appearance, each with how many events carry the tag.
pub fn make_tags_print_list(events: &Vec<(u64, AgendaEvent)>) -> (r: Vec<String>)
    ensures
        r.deep_view() == spec_tags_print_list(events@, 0),
{
    let mut r: Vec<String> = Vec::new();
    let mut i: usize = 0;
    while i < events.len()
        invariant
            0 <= i <= events@.len(),
            r.deep_view() + spec_tags_print_list(events@, i as int) == spec_tags_print_list(
                events@,
                0,
            ),
        decreases events@.len() - i,
    {
        proof {
            reveal_strlit("<b>Tag</b> <code>");
            reveal_strlit("</code>: ");
            reveal_strlit(" events");
        }
        let ghost pre_tags = spec_tags_print_list(events@, i as int);
        match &events[i].1.tag {
            Option::None => {},
            Option::Some(tg) => {
                // Skip a tag already listed for an earlier event.
                let mut seen = false;
                let mut j: usize = 0;
                while j < i
                    invariant
                        0 <= j <= i < events@.len(),
                        events@[i as int].1.tag is Some,
                        tg@ == events@[i as int].1.tag->Some_0@,
                        seen == spec_tag_seen(events@, j as int, events@[i as int].1.tag->Some_0@),
                    decreases i - j,
                {
                    match &events[j].1.tag {
                        Option::Some(tj) => {
                            if crate::textfmt::str_eq(tj.as_str(), tg.as_str()) {
                                seen = true;
                            }
                        },
                        Option::None => {},
                    }
                    proof {
                        if seen && !spec_tag_seen(
                            events@,
                            j as int,
                            events@[i as int].1.tag->Some_0@,
                        ) {
                            assert(events@[j as int].1.tag is Some && events@[j as int].1.tag->Some_0@
                                == events@[i as int].1.tag->Some_0@);
                            assert(spec_tag_seen(
                                events@,
                                j + 1 as int,
                                events@[i as int].1.tag->Some_0@,
                            ));
                        } else if spec_tag_seen(
                            events@,
                            j as int,
                            events@[i as int].1.tag->Some_0@,
                        ) {
                            let w = choose|w: int|
                                0 <= w < j && (#[trigger] events@[w]).1.tag is Some
                                    && events@[w].1.tag->Some_0@ == events@[i as int].1.tag->Some_0@;
                            assert(spec_tag_seen(
                                events@,
                                j + 1 as int,
                                events@[i as int].1.tag->Some_0@,
                            ));
                        }
                    }
                    j = j + 1;
                }
                if !seen {
                    let mut line = "<b>Tag</b> <code>".to_owned();
                    line.append(tg.as_str());
                    line.append("</code>: ");
                    let cnt = count_tag(events, tg);
                    let cs = u64_to_string(cnt);
                    line.append(cs.as_str());
                    line.append(" events");
                    proof {
                        assert(line@ =~= spec_tag_line(events@, events@[i as int].1.tag->Some_0@));
                    }
                    r.push(line);
                    proof {
                        assert(r.deep_view() =~~= r.deep_view().subrange(
                            0,
                            r.deep_view().len() - 1,
                        ) + seq![line@]);
                        assert(r.deep_view().subrange(0, r.deep_view().len() - 1) + (seq![line@]
                            + spec_tags_print_list(events@, i + 1 as int)) =~~= r.deep_view()
                            + spec_tags_print_list(events@, i + 1 as int));
                    }
                }
            },
        }
        i = i + 1;
    }
    proof {
        assert(r.deep_view() + Seq::<Seq<char>>::empty() =~~= r.deep_view());
    }
    r
}

/// The untagged events, in store order.
pub open spec fn spec_untagged(s: Seq<(u64, AgendaEvent)>) -> Seq<(u64, AgendaEvent)>
    decreases s.len(),
{
    if s.len() == 0 {
        s
    } else {
        let rest = spec_untagged(s.drop_first());
        if s[0].1.tag is None {
            seq![s[0]] + rest
        } else {
            rest
        }
    }
}

/// The events carrying a given tag, in store order.
pub open spec fn spec_with_tag(s: Seq<(u64, AgendaEvent)>, t: Seq<char>) -> Seq<(u64, AgendaEvent)>
    decreases s.len(),
{
    if s.len() == 0 {
        s
    } else {
        let rest = spec_with_tag(s.drop_first(), t);
        if s[0].1.tag is Some && s[0].1.tag->Some_0@ == t {
            seq![s[0]] + rest
        } else {
            rest
        }
    }
}

/// What the whole-store listing says: the tag summary, a header, and one
/// line per untagged event; or that there are no events.
pub open spec fn spec_print_events(s: Seq<(u64, AgendaEvent)>, df: DateFormat) -> Seq<char> {
    if s.len() == 0 {
        "No events"@
    } else {
        crate::textfmt::join_lines(
            spec_tags_print_list(s, 0) + seq!["\n<b>Untagged events:</b>"@]
                + spec_events_print_list(spec_untagged(s), df),
            0,
        )
    }
}

/// What the listing of one tag says: a header naming the tag and one line
/// per event carrying it.
pub open spec fn spec_print_tagged(s: Seq<(u64, AgendaEvent)>, t: Seq<char>, df: DateFormat) -> Seq<
    char,
> {
    crate::textfmt::join_lines(
        seq!["<b>Tag</b> <code>"@ + t + "</code>:"@] + spec_events_print_list(
            spec_with_tag(s, t),
            df,
        ),
        0,
    )
}

impl Clone for AgendaEvent {
    /// An exact copy of the event.
    fn clone(&self) -> (r: Self)
        ensures
            r == *self,
    {
        AgendaEvent {
            cronline: self.cronline,
            text: self.text.clone(),
            tag: match &self.tag {
                Option::Some(t) => Some(t.clone()),
                Option::None => None,
            },
        }
    }
}

impl AgendaState {
    /// Lists the whole store: a summary of the tags, then the untagged
    /// events one line each; never fails.
    pub fn print_events(&self, date_format: DateFormat) -> (r: Result<String, AgendaError>)
        ensures
            r is Ok,
            r->Ok_0@ == spec_print_events(self.events@, date_format),
    {
        proof {
            reveal_strlit("No events");
            reveal_strlit("\n<b>Untagged events:</b>");
        }
        if self.events.len() == 0 {
            return Ok("No events".to_owned());
        }
        let mut lines = make_tags_print_list(&self.events);
        lines.push("\n<b>Untagged events:</b>".to_owned());
        // The untagged events, one line each.
        let mut untagged: Vec<(u64, AgendaEvent)> = Vec::new();
        let mut i: usize = 0;
        while i < self.events.len()
            invariant
                0 <= i <= self.events@.len(),
                untagged@ + spec_untagged(self.events@.skip(i as int)) == spec_untagged(
                    self.events@.skip(0),
                ),
            decreases self.events@.len() - i,
        {
            let ghost rem = self.events@.skip(i as int);
            proof {
                assert(rem.drop_first() =~= self.events@.skip(i + 1 as int));
                assert(rem[0] == self.events@[i as int]);
            }
            if self.events[i].1.tag.is_none() {
                let p = (self.events[i].0, self.events[i].1.clone());
                untagged.push(p);
                proof {
                    assert(untagged@ =~= untagged@.subrange(0, untagged@.len() - 1) + seq![p]);
                    assert(untagged@.subrange(0, untagged@.len() - 1) + (seq![p] + spec_untagged(
                        self.events@.skip(i + 1 as int),
                    )) =~= untagged@ + spec_untagged(self.events@.skip(i + 1 as int)));
                }
            }
            i = i + 1;
        }
        proof {
            assert(self.events@.skip(0) =~= self.events@);
            assert(spec_untagged(self.events@.skip(i as int)).len() == 0);
            assert(untagged@ + spec_untagged(self.events@.skip(i as int)) =~= untagged@);
        }
        let event_lines = make_events_print_list(&untagged, date_format);
        // Concatenate the three groups of lines and join them.
        let ghost tag_lines = spec_tags_print_list(self.events@, 0);
        let mut all = lines;
        let mut j: usize = 0;
        while j < event_lines.len()
            invariant
                0 <= j <= event_lines@.len(),
                all.deep_view() =~~= tag_lines + seq!["\n<b>Untagged events:</b>"@]
                    + event_lines.deep_view().subrange(0, j as int),
            decreases event_lines@.len() - j,
        {
            let ghost prev = all.deep_view();
            all.push(event_lines[j].clone());
            proof {
                let dv = event_lines.deep_view();
                assert(all.deep_view() =~~= prev.push(dv[j as int]));
                assert(dv.subrange(0, j + 1 as int) =~= dv.subrange(0, j as int).push(
                    dv[j as int],
                ));
                assert(prev.push(dv[j as int]) =~~= tag_lines + seq![
                    "\n<b>Untagged events:</b>"@,
                ] + dv.subrange(0, j + 1 as int));
            }
            j = j + 1;
        }
        proof {
            assert(event_lines.deep_view().subrange(0, event_lines.deep_view().len() as int)
                =~~= event_lines.deep_view());
        }
        let reply = crate::textfmt::join_lines_from(&all, 0);
        Ok(reply)
    }

    /// Lists the events carrying a tag; the tag must be given and some
    /// event must carry it.
    pub fn print_tagged_events(&self, words: &Vec<String>, date_format: DateFormat) -> (r: Result<
        String,
        AgendaError,
    >)
        ensures
            words@.len() == 0 ==> r == Result::<String, AgendaError>::Err(
                AgendaError::NoTagSupplied,
            ),
            words@.len() > 0 ==> {
                let t = join_words(words.deep_view(), 0);
                if spec_with_tag(self.events@, t).len() == 0 {
                    r matches Err(e) && e matches AgendaError::NoEventsWithTag(tg) && tg@ == t
                } else {
                    r is Ok && r->Ok_0@ == spec_print_tagged(self.events@, t, date_format)
                }
            },
    {
        proof {
            reveal_strlit("<b>Tag</b> <code>");
            reveal_strlit("</code>:");
        }
        if words.len() == 0 {
            return Err(AgendaError::NoTagSupplied);
        }
        let tag = join_from(words, 0);
        // The events carrying the tag, in store order.
        let mut selected: Vec<(u64, AgendaEvent)> = Vec::new();
        let mut i: usize = 0;
        while i < self.events.len()
            invariant
                0 <= i <= self.events@.len(),
                tag@ == join_words(words.deep_view(), 0),
                selected@ + spec_with_tag(self.events@.skip(i as int), tag@) == spec_with_tag(
                    self.events@.skip(0),
                    tag@,
                ),
            decreases self.events@.len() - i,
        {
            let ghost rem = self.events@.skip(i as int);
            proof {
                assert(rem.drop_first() =~= self.events@.skip(i + 1 as int));
                assert(rem[0] == self.events@[i as int]);
            }
            let hit = match &self.events[i].1.tag {
                Option::Some(t) => crate::textfmt::str_eq(t.as_str(), tag.as_str()),
                Option::None => false,
            };
            if hit {
                let p = (self.events[i].0, self.events[i].1.clone());
                selected.push(p);
                proof {
                    assert(selected@ =~= selected@.subrange(0, selected@.len() - 1) + seq![p]);
                    assert(selected@.subrange(0, selected@.len() - 1) + (seq![p] + spec_with_tag(
                        self.events@.skip(i + 1 as int),
                        tag@,
                    )) =~= selected@ + spec_with_tag(self.events@.skip(i + 1 as int), tag@));
                }
            }
            i = i + 1;
        }
        proof {
            assert(self.events@.skip(0) =~= self.events@);
            assert(spec_with_tag(self.events@.skip(i as int), tag@).len() == 0);
            assert(selected@ + spec_with_tag(self.events@.skip(i as int), tag@) =~= selected@);
        }
        if selected.len() == 0 {
            return Err(AgendaError::NoEventsWithTag(tag));
        }
        let mut header = "<b>Tag</b> <code>".to_owned();
        header.append(tag.as_str());
        header.append("</code>:");
        let event_lines = make_events_print_list(&selected, date_format);
        let mut all: Vec<String> = Vec::new();
        all.push(header);
        let mut j: usize = 0;
        while j < event_lines.len()
            invariant
                0 <= j <= event_lines@.len(),
                tag@ == join_words(words.deep_view(), 0),
                all.deep_view() =~~= seq!["<b>Tag</b> <code>"@ + tag@ + "</code>:"@]
                    + event_lines.deep_view().subrange(0, j as int),
            decreases event_lines@.len() - j,
        {
            let ghost prev = all.deep_view();
            all.push(event_lines[j].clone());
            proof {
                let dv = event_lines.deep_view();
                assert(all.deep_view() =~~= prev.push(dv[j as int]));
                assert(dv.subrange(0, j + 1 as int) =~= dv.subrange(0, j as int).push(
                    dv[j as int],
                ));
                assert(prev.push(dv[j as int]) =~~= seq![
                    "<b>Tag</b> <code>"@ + tag@ + "</code>:"@,
                ] + dv.subrange(0, j + 1 as int));
            }
            j = j + 1;
        }
        proof {
            assert(event_lines.deep_view().subrange(0, event_lines.deep_view().len() as int)
                =~~= event_lines.deep_view());
        }
        let reply = crate::textfmt::join_lines_from(&all, 0);
        Ok(reply)
    }

    /// The help text: the commands, how to add an event, and examples.
    pub fn print_help(&self) -> (r: Result<String, AgendaError>)
        ensures
            r is Ok,
            r->Ok_0@ == spec_help_text(),
    {
        Ok(
            "<b>/help</b>\n    Show this message\n<b>/events</b>\n    Lists upcoming events\n<b>/events &lt;tag&gt</b>\n    Lists upcoming events tagged with &lt;tag&gt;\n<b>/del  &lt;n&gt;</b>\n    Delete event number &lt;n&gt;\n<b>/tag &lt;n&gt; &lt;tag&gt;</b>\n    Tag event number &lt;n&gt; with tag &lt;tag&gt;\n<b>/untag &lt;n&gt;</b>\n    Untag event number &lt;n&gt;\n\nTo add a new event, send <code>&lt;time&gt; &lt;message&gt;</code> without a leading <b>/</b>.\nExamples:\n\n<code>    at 9am pick up groceries\n    every year on April 4th Dan's birthday\n    on 21/08 dentist appointment\n    in 30 minutes check cake in oven\n    every day at 5pm do some exercise</code>".to_owned(),
        )
    }
}

/// The help text.
pub open spec fn spec_help_text() -> Seq<char> {
    "<b>/help</b>\n    Show this message\n<b>/events</b>\n    Lists upcoming events\n<b>/events &lt;tag&gt</b>\n    Lists upcoming events tagged with &lt;tag&gt;\n<b>/del  &lt;n&gt;</b>\n    Delete event number &lt;n&gt;\n<b>/tag &lt;n&gt; &lt;tag&gt;</b>\n    Tag event number &lt;n&gt; with tag &lt;tag&gt;\n<b>/untag &lt;n&gt;</b>\n    Untag event number &lt;n&gt;\n\nTo add a new event, send <code>&lt;time&gt; &lt;message&gt;</code> without a leading <b>/</b>.\nExamples:\n\n<code>    at 9am pick up groceries\n    every year on April 4th Dan's birthday\n    on 21/08 dentist appointment\n    in 30 minutes check cake in oven\n    every day at 5pm do some exercise</code>"@
}

/// The text a command's outcome sends back: the reply itself, or the
/// rendered error.
pub open spec fn spec_reply(inner: Result<String, AgendaError>) -> Seq<char> {
    match inner {
        Result::Ok(s) => s@,
        Result::Err(e) => "Error: "@ + crate::errors::spec_error_message(e),
    }
}

impl AgendaState {
    /// Processes one inbound message, already split into words: a leading
    /// "/" selects a sub-operation (help, list, list-by-tag, delete, tag,
    /// untag); anything else adds an event. Returns the reply and whether
    /// the store changed (and so must be persisted).
    pub fn process(&mut self, now: &Instant, words: &Vec<String>, date_format: DateFormat) -> (r: (
        String,
        bool,
    ))
        requires
            old(self).wf(),
            now.valid(),
        ensures
            final(self).wf(),
            !r.1 ==> *final(self) == *old(self),
            ({
                let ws = words.deep_view();
                let olds = old(self).events@;
                let news = final(self).events@;
                let is_cmd = ws.len() > 0 && ws[0].len() > 0 && ws[0][0] == '/';
                if !is_cmd {
                    exists|inner: Result<String, AgendaError>|
                        {
                            &&& #[trigger] spec_add_event_post(olds, news, inner, *now, ws, date_format)
                            &&& r.0@ == spec_reply(inner)
                            &&& r.1 == inner is Ok
                        }
                } else if ws[0] == "/help"@ {
                    r.0@ == spec_help_text() && !r.1
                } else if ws[0] == "/events"@ && ws.len() == 1 {
                    r.0@ == spec_print_events(olds, date_format) && !r.1
                } else if ws[0] == "/events"@ {
                    let t = join_words(ws.skip(1), 0);
                    &&& !r.1
                    &&& (if spec_with_tag(olds, t).len() == 0 {
                        r.0@ == "Error: No events with tag \""@ + t + "\""@
                    } else {
                        r.0@ == spec_print_tagged(olds, t, date_format)
                    })
                } else if ws[0] == "/del"@ {
                    exists|inner: Result<String, AgendaError>|
                        {
                            &&& #[trigger] spec_remove_events_post(olds, news, inner, ws.skip(1))
                            &&& r.0@ == spec_reply(inner)
                            &&& r.1 == inner is Ok
                        }
                } else if ws[0] == "/tag"@ {
                    exists|inner: Result<String, AgendaError>|
                        {
                            &&& #[trigger] spec_tag_event_post(olds, news, inner, ws.skip(1))
                            &&& r.0@ == spec_reply(inner)
                            &&& r.1 == inner is Ok
                        }
                } else if ws[0] == "/untag"@ {
                    exists|inner: Result<String, AgendaError>|
                        {
                            &&& #[trigger] spec_untag_event_post(olds, news, inner, ws.skip(1))
                            &&& r.0@ == spec_reply(inner)
                            &&& r.1 == inner is Ok
                        }
                } else {
                    r.0@ == "Unknown command"@ && !r.1
                }
            }),
    {
        proof {
            reveal_strlit("Unknown command");
            reveal_strlit("/");
        }
        let is_cmd = words.len() > 0 && words[0].unicode_len() > 0 && words[0].as_str().get_char(0)
            == '/';
        if !is_cmd {
            let inner = self.add_event(now, words, date_format);
            let changed = inner.is_ok();
            let reply = match inner {
                Result::Ok(s) => s,
                Result::Err(e) => crate::errors::format_error(&e),
            };
            return (reply, changed);
        }
        if str_is_word(&words[0], "/help") {
            let inner = self.print_help();
            let reply = match inner {
                Result::Ok(s) => s,
                Result::Err(e) => crate::errors::format_error(&e),
            };
            (reply, false)
        } else if str_is_word(&words[0], "/events") && words.len() == 1 {
            let inner = self.print_events(date_format);
            let reply = match inner {
                Result::Ok(s) => s,
                Result::Err(e) => crate::errors::format_error(&e),
            };
            (reply, false)
        } else if str_is_word(&words[0], "/events") {
            let rest = crate::time_parsing::tail_words(words, 1);
            let inner = self.print_tagged_events(&rest, date_format);
            proof {
                let ws = words.deep_view();
                let t = join_words(ws.skip(1), 0);
                if inner is Err {
                    reveal_strlit("Error: ");
                    reveal_strlit("Error: No events with tag \"");
                    reveal_strlit("No events with tag \"");
                    reveal_strlit("\"");
                    assert(("Error: "@ + crate::errors::spec_error_message(
                        inner->Err_0,
                    )) =~= "Error: No events with tag \""@ + t + "\""@);
                }
            }
            let reply = match inner {
                Result::Ok(s) => s,
                Result::Err(e) => crate::errors::format_error(&e),
            };
            (reply, false)
        } else if str_is_word(&words[0], "/del") {
            let rest = crate::time_parsing::tail_words(words, 1);
            let inner = self.remove_events(&rest);
            let changed = inner.is_ok();
            let reply = match inner {
                Result::Ok(s) => s,
                Result::Err(e) => crate::errors::format_error(&e),
            };
            (reply, changed)
        } else if str_is_word(&words[0], "/tag") {
            let rest = crate::time_parsing::tail_words(words, 1);
            let inner = self.tag_event(&rest);
            let changed = inner.is_ok();
            let reply = match inner {
                Result::Ok(s) => s,
                Result::Err(e) => crate::errors::format_error(&e),
            };
            (reply, changed)
        } else if str_is_word(&words[0], "/untag") {
            let rest = crate::time_parsing::tail_words(words, 1);
            let inner = self.untag_event(&rest);
            let changed = inner.is_ok();
            let reply = match inner {
                Result::Ok(s) => s,
                Result::Err(e) => crate::errors::format_error(&e),
            };
            (reply, changed)
        } else {
            ("Unknown command".to_owned(), false)
        }
    }
}

/// Whether a word equals a literal, character for character.
fn str_is_word(w: &String, lit: &str) -> (r: bool)
    ensures
        r == (w@ == lit@),
{
    crate::textfmt::str_eq(w.as_str(), lit)
}

/// When every word of a list parses as a number, the parsed list matches
/// pointwise.
proof fn lemma_parse_ids_all(ws: Seq<Seq<char>>)
    ensures
        (forall|j: int| 0 <= j < ws.len() ==> spec_parse_u64(#[trigger] ws[j]) is Some)
            <==> spec_parse_ids(ws) is Some,
    decreases ws.len(),
{
    if ws.len() > 0 {
        let tail = ws.drop_first();
        lemma_parse_ids_all(tail);
        if forall|j: int| 0 <= j < ws.len() ==> spec_parse_u64(#[trigger] ws[j]) is Some {
            assert(spec_parse_u64(ws[0]) is Some);
            assert forall|j: int| 0 <= j < tail.len() implies spec_parse_u64(
                #[trigger] tail[j],
            ) is Some by {
                assert(tail[j] == ws[j + 1]);
                assert(spec_parse_u64(ws[j + 1]) is Some);
            }
            assert(spec_parse_ids(tail) is Some);
            assert(spec_parse_ids(ws) is Some);
        }
        if spec_parse_ids(ws) is Some {
            assert(spec_parse_u64(ws[0]) is Some);
            assert(spec_parse_ids(tail) is Some);
            assert forall|j: int| 0 <= j < ws.len() implies spec_parse_u64(
                #[trigger] ws[j],
            ) is Some by {
                if j > 0 {
                    assert(tail[j - 1] == ws[j]);
                    assert(spec_parse_u64(tail[j - 1]) is Some);
                }
            }
        }
    }
}

/// The parsed identifier list is pointwise the per-word parse.
proof fn lemma_parse_ids_pointwise(ws: Seq<Seq<char>>, ids: Seq<u64>)
    requires
        spec_parse_ids(ws) is Some,
        ids.len() == ws.len(),
        forall|j: int| 0 <= j < ws.len() ==> Some(#[trigger] ids[j]) == spec_parse_u64(ws[j]),
    ensures
        spec_parse_ids(ws)->Some_0 == ids,
    decreases ws.len(),
{
    if ws.len() == 0 {
        assert(spec_parse_ids(ws)->Some_0 =~= ids);
    } else {
        assert(Some(ids[0]) == spec_parse_u64(ws[0]));
        assert forall|j: int|
            0 <= j < ws.drop_first().len() implies Some(#[trigger] ids.drop_first()[j])
            == spec_parse_u64(ws.drop_first()[j]) by {
            assert(ws.drop_first()[j] == ws[j + 1]);
            assert(ids.drop_first()[j] == ids[j + 1]);
        }
        lemma_parse_ids_pointwise(ws.drop_first(), ids.drop_first());
        assert(spec_parse_ids(ws)->Some_0 =~= ids);
    }
}

/// A nonempty tail joined from its first word is the tail's own join.
proof fn lemma_join_skip(ws: Seq<Seq<char>>, pos: int)
    requires
        0 <= pos <= ws.len(),
    ensures
        join_words(ws.skip(pos), 0) == join_words(ws, pos),
    decreases ws.len() - pos,
{
    let t = ws.skip(pos);
    if pos >= ws.len() {
    } else if pos == ws.len() - 1 {
        assert(t.len() == 1);
        assert(t[0] == ws[pos]);
    } else {
        lemma_join_skip(ws, pos + 1);
        assert(t[0] == ws[pos]);
        assert(t.skip(1) =~= ws.skip(pos + 1));
        lemma_join_first(t);
        assert(join_words(ws, pos) == ws[pos] + seq![' '] + join_words(ws, pos + 1));
    }
}

/// Joining from the head splits into the head, a space and the rest.
proof fn lemma_join_first(t: Seq<Seq<char>>)
    requires
        t.len() >= 2,
    ensures
        join_words(t, 0) == t[0] + " "@ + join_words(t.skip(1), 0),
        join_words(t.skip(1), 0) == join_words(t, 1),
    decreases t.len(),
{
    reveal_strlit(" ");
    assert(" "@ =~= seq![' ']);
    lemma_join_shift(t, 1);
}

/// Joining the tail from its start is joining the whole from position one.
proof fn lemma_join_shift(t: Seq<Seq<char>>, from: int)
    requires
        1 <= from <= t.len(),
    ensures
        join_words(t.skip(1), from - 1) == join_words(t, from),
    decreases t.len() - from,
{
    let u = t.skip(1);
    if from >= t.len() {
    } else if from == t.len() - 1 {
        assert(u[from - 1] == t[from]);
    } else {
        lemma_join_shift(t, from + 1);
        assert(u[from - 1] == t[from]);
    }
}

} // verus!
