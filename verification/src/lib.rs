//! A minute-resolution reminder scheduler: a cron-like pattern of five time
//! units, a natural-language time-expression parser, a wildcard/now autofill
//! that completes partial patterns, an exact next-occurrence search, and a
//! store of live events swept once per minute.

pub mod agenda;
pub mod codec;
pub mod cron;
pub mod cronline_builder;
pub mod errors;
pub mod event;
pub mod instant;
pub mod laws;
pub mod parsers;
pub mod textfmt;
pub mod time_parsing;

use vstd::prelude::*;

verus! {

/// A message flowing between the transport layer and the agenda:
/// inbound command text or outbound reply/notification text.
#[derive(Debug)]
pub enum BotUpdate {
    MsgIn(String),
    MsgOut(String),
}

/// Order of day and month in numeric dates, both parsed and displayed.
#[derive(Clone, Copy, PartialEq, Eq, Structural, Debug)]
pub enum DateFormat {
    MDY,
    DMY,
}

} // verus!
