//! The fixed-point driver of the parser chain: rounds of the chain are run
//! against the remaining words, each round's assignments are merged into
//! the pattern builder (a duplicate assignment is a hard error), and when
//! no rule matches the words left over are the message body.

use vstd::prelude::*;

use crate::cron::{CronColumn, CronValue, Cronline};
use crate::cronline_builder::{
    default_time_comment, spec_autofill, spec_autofill_defaulted, spec_missing_columns,
    CronlineBuilder,
};
use crate::errors::AgendaError;
use crate::instant::Instant;
use crate::parsers::{parse, spec_parse};
use crate::DateFormat;

verus! {

/// What a successfully parsed command yields: the completed pattern, the
/// words left over (the message body), and the comment autofill produced
/// when it fell back to the default time of day.
#[derive(Debug)]
pub struct CronlineResult {
    pub cronline: Cronline,
    pub remaining_words: Vec<String>,
    pub comment: Option<String>,
}

/// Merges one round's assignments into a builder, left to right; the first
/// unit already assigned is a hard error.
pub open spec fn spec_apply(b: CronlineBuilder, ups: Seq<(CronColumn, CronValue)>) -> Result<
    CronlineBuilder,
    AgendaError,
>
    decreases ups.len(),
{
    if ups.len() == 0 {
        Ok(b)
    } else {
        let (col, val) = ups[0];
        if b.spec_slot(col) is Some {
            Err(AgendaError::AlreadySpecified(col))
        } else {
            spec_apply(b.spec_with(col, Some(val)), ups.drop_first())
        }
    }
}

/// The chain run to its fixed point from a builder and a position: rounds
/// are taken while a rule matches and words remain, their assignments
/// merged in order.
pub open spec fn spec_chain(
    ws: Seq<Seq<char>>,
    now: Instant,
    df: DateFormat,
    b: CronlineBuilder,
    pos: int,
) -> Result<(CronlineBuilder, int), AgendaError>
    decreases ws.len() - pos,
{
    match spec_parse(ws, pos, now, df) {
        Option::None => Ok((b, pos)),
        Option::Some((ups, p2)) => match spec_apply(b, ups) {
            Result::Err(e) => Err(e),
            Result::Ok(b2) => if p2 >= ws.len() || p2 <= pos {
                Ok((b2, p2))
            } else {
                spec_chain(ws, now, df, b2, p2)
            },
        },
    }
}

/// The words from `from` on, as their own vector.
pub fn tail_words(words: &Vec<String>, from: usize) -> (r: Vec<String>)
    requires
        from <= words@.len(),
    ensures
        r.deep_view() == words.deep_view().skip(from as int),
{
    let mut r: Vec<String> = Vec::new();
    let mut i = from;
    while i < words.len()
        invariant
            from <= i <= words@.len(),
            r@.len() == i - from,
            forall|j: int| 0 <= j < i - from ==> r@[j]@ == words@[from + j]@,
        decreases words@.len() - i,
    {
        r.push(words[i].clone());
        i = i + 1;
    }
    proof {
        assert(r.deep_view() =~~= words.deep_view().skip(from as int));
    }
    r
}

/// Parses the time expression at the head of the words against the
/// reference instant: rounds of the rule chain assign units until no rule
/// matches or no words remain, the autofill algorithm completes the
/// pattern, and the pattern must then be fully assigned.
pub fn parse_cronline(now: &Instant, words: &Vec<String>, date_format: DateFormat) -> (r: Result<
    CronlineResult,
    AgendaError,
>)
    requires
        now.valid(),
    ensures
        ({
            let ws = words.deep_view();
            let ch = spec_chain(ws, *now, date_format, CronlineBuilder::spec_empty(), 0);
            ch is Ok ==> 0 <= ch->Ok_0.1 <= ws.len()
        }),
        ({
            let ws = words.deep_view();
            let ch = spec_chain(ws, *now, date_format, CronlineBuilder::spec_empty(), 0);
            match ch {
                Result::Err(e) => r matches Err(e2) && e2 == e,
                Result::Ok((b, pos)) => {
                    let filled = spec_autofill(b, *now);
                    if filled.complete() {
                        &&& r is Ok
                        &&& r->Ok_0.cronline == filled.spec_built_line()
                        &&& forall|c: CronColumn|
                            #[trigger] r->Ok_0.cronline.spec_get(c) == filled.spec_slot(c)->Some_0
                        &&& r->Ok_0.remaining_words.deep_view() == ws.skip(pos)
                        &&& (r->Ok_0.comment is Some <==> spec_autofill_defaulted(b, *now))
                        &&& (r->Ok_0.comment is Some ==> r->Ok_0.comment->Some_0@
                            == default_time_comment())
                    } else {
                        r matches Err(AgendaError::IncompleteCronline(m)) && m@
                            == spec_missing_columns(filled)
                    }
                },
            }
        }),
{
    let ghost ws = words.deep_view();
    let mut builder = CronlineBuilder::new();
    let mut pos: usize = 0;
    let n = words.len();
    loop
        invariant
            now.valid(),
            0 <= pos <= n,
            n == ws.len(),
            ws == words.deep_view(),
            spec_chain(ws, *now, date_format, builder, pos as int) == spec_chain(
                ws,
                *now,
                date_format,
                CronlineBuilder::spec_empty(),
                0,
            ),
        ensures
            spec_chain(ws, *now, date_format, CronlineBuilder::spec_empty(), 0) == Result::<
                (CronlineBuilder, int),
                AgendaError,
            >::Ok((builder, pos as int)),
        decreases n - pos,
    {
        let upd = match parse(words, pos, now, date_format) {
            Option::Some(u) => u,
            Option::None => {
                break ;
            },
        };
        let ghost ups = upd.cron_updates@;
        let ghost b_enter = builder;
        let ghost pos_enter = pos as int;
        proof {
            assert(ups.skip(0) =~= ups);
        }
        // Merge this round's assignments, left to right.
        let mut i: usize = 0;
        while i < upd.cron_updates.len()
            invariant
                0 <= i <= ups.len(),
                ups == upd.cron_updates@,
                ws == words.deep_view(),
                spec_apply(builder, ups.skip(i as int)) == spec_apply(b_enter, ups),
                spec_parse(ws, pos_enter, *now, date_format) == Some(
                    (ups, upd.new_pos as int),
                ),
                spec_chain(ws, *now, date_format, b_enter, pos_enter) == spec_chain(
                    ws,
                    *now,
                    date_format,
                    CronlineBuilder::spec_empty(),
                    0,
                ),
            decreases ups.len() - i,
        {
            let (col, val) = upd.cron_updates[i];
            assert(ups.skip(i as int)[0] == (col, val));
            let ghost before = builder;
            match builder.set(col, val) {
                Result::Ok(()) => {},
                Result::Err(e) => {
                    proof {
                        assert(spec_apply(b_enter, ups) == Result::<
                            CronlineBuilder,
                            AgendaError,
                        >::Err(AgendaError::AlreadySpecified(col)));
                        assert(spec_chain(ws, *now, date_format, b_enter, pos_enter)
                            == Result::<(CronlineBuilder, int), AgendaError>::Err(
                            AgendaError::AlreadySpecified(col),
                        ));
                    }
                    return Err(e);
                },
            }
            proof {
                assert(ups.skip(i as int).drop_first() =~= ups.skip(i + 1 as int));
            }
            i = i + 1;
        }
        proof {
            assert(ups.skip(i as int).len() == 0);
            assert(spec_apply(b_enter, ups) == Result::<CronlineBuilder, AgendaError>::Ok(
                builder,
            ));
            if upd.new_pos as int >= ws.len() {
                assert(spec_chain(ws, *now, date_format, b_enter, pos_enter) == Result::<
                    (CronlineBuilder, int),
                    AgendaError,
                >::Ok((builder, upd.new_pos as int)));
            } else {
                assert(spec_chain(ws, *now, date_format, b_enter, pos_enter) == spec_chain(
                    ws,
                    *now,
                    date_format,
                    builder,
                    upd.new_pos as int,
                ));
            }
        }
        pos = upd.new_pos;
        if pos == n {
            break ;
        }
    }
    // Complete the pattern from the reference instant and build it.
    let comment = builder.autofill(now);
    let line = match builder.build() {
        Result::Ok(line) => line,
        Result::Err(e) => {
            return Err(e);
        },
    };
    let remaining_words = tail_words(words, pos);
    Ok(CronlineResult { cronline: line, remaining_words, comment })
}

} // verus!
