//! The errors a command can end in, and their user-visible rendering.

use vstd::prelude::*;

use crate::cron::CronColumn;

verus! {

/// Everything that can go wrong while processing a command: parse errors,
/// build errors, semantic errors and lookup errors.
#[derive(Clone, PartialEq, Eq, Debug)]
pub enum AgendaError {
    /// A second assignment to a unit within one command.
    AlreadySpecified(CronColumn),
    /// Units still unassigned after autofill.
    IncompleteCronline(Vec<CronColumn>),
    /// Nothing left after the time expression to use as the message body.
    NoMessage,
    /// A pattern with no future occurrence within the search horizon.
    NeverOccurs,
    /// A removal or untag command without an event number.
    NoEventNumber,
    /// An event number that is not a number.
    InvalidEventNumber,
    /// A tag command without any argument.
    NoArguments,
    /// A tag command with a number but no tag.
    NoTag,
    /// A command naming an event number not in the store.
    NoEventAtNumber,
    /// A tag listing without a tag.
    NoTagSupplied,
    /// A tag listing for a tag no event carries.
    NoEventsWithTag(String),
}

/// The capitalized name of a unit, as error messages spell it.
pub fn column_label(col: CronColumn) -> (r: &'static str)
    ensures
        r@ == spec_column_label(col),
{
    proof {
        reveal_strlit("Minute");
        reveal_strlit("Hour");
        reveal_strlit("Day");
        reveal_strlit("Month");
        reveal_strlit("Year");
    }
    match col {
        CronColumn::Minute => "Minute",
        CronColumn::Hour => "Hour",
        CronColumn::Day => "Day",
        CronColumn::Month => "Month",
        CronColumn::Year => "Year",
    }
}

/// The capitalized name of a unit.
pub open spec fn spec_column_label(col: CronColumn) -> Seq<char> {
    match col {
        CronColumn::Minute => "Minute"@,
        CronColumn::Hour => "Hour"@,
        CronColumn::Day => "Day"@,
        CronColumn::Month => "Month"@,
        CronColumn::Year => "Year"@,
    }
}

/// The reason an error renders to, without the leading "Error: ".
pub open spec fn spec_error_message(err: AgendaError) -> Seq<char> {
    match err {
        AgendaError::AlreadySpecified(col) => "cannot parse time: "@ + spec_column_label(col)
            + " already specified"@,
        AgendaError::IncompleteCronline(cols) => "cannot parse time: Incomplete cronline: missing "@
            + join_comma(cols@),
        AgendaError::NoMessage => "no message specified"@,
        AgendaError::NeverOccurs => "Invalid time: never occurs"@,
        AgendaError::NoEventNumber => "No event number supplied"@,
        AgendaError::InvalidEventNumber => "Invalid event number"@,
        AgendaError::NoArguments => "No arguments specified"@,
        AgendaError::NoTag => "No tag specified"@,
        AgendaError::NoEventAtNumber => "No event at this number"@,
        AgendaError::NoTagSupplied => "No tag supplied"@,
        AgendaError::NoEventsWithTag(tag) => "No events with tag \""@ + tag@ + "\""@,
    }
}

/// The names of the given units joined with a comma and a space.
pub open spec fn join_comma(cols: Seq<CronColumn>) -> Seq<char>
    decreases cols.len(),
{
    if cols.len() == 0 {
        Seq::empty()
    } else if cols.len() == 1 {
        spec_column_label(cols[0])
    } else {
        spec_column_label(cols[0]) + ", "@ + join_comma(cols.drop_first())
    }
}

/// Joins unit names with a comma and a space, starting at `from`.
fn join_comma_from(cols: &Vec<CronColumn>, from: usize) -> (r: String)
    requires
        from <= cols@.len(),
    ensures
        r@ == join_comma(cols@.skip(from as int)),
    decreases cols@.len() - from,
{
    proof {
        reveal_strlit(", ");
    }
    if from >= cols.len() {
        let r = String::new();
        assert(r@ =~= join_comma(cols@.skip(from as int)));
        r
    } else if from == cols.len() - 1 {
        let r = column_label(cols[from]).to_owned();
        assert(cols@.skip(from as int).len() == 1);
        assert(cols@.skip(from as int)[0] == cols@[from as int]);
        assert(r@ =~= join_comma(cols@.skip(from as int)));
        r
    } else {
        let mut r = column_label(cols[from]).to_owned();
        r.append(", ");
        let rest = join_comma_from(cols, from + 1);
        r.append(rest.as_str());
        proof {
            let s = cols@.skip(from as int);
            assert(s.len() >= 2);
            assert(s[0] == cols@[from as int]);
            assert(s.drop_first() =~= cols@.skip(from as int + 1));
            assert(r@ =~= join_comma(s));
        }
        r
    }
}

/// Renders an error as the user sees it: the reason, prefixed with
/// "Error: ", with the parse context named for parse and build errors.
pub fn format_error(err: &AgendaError) -> (r: String)
    ensures
        r@ == "Error: "@ + spec_error_message(*err),
{
    proof {
        reveal_strlit("Error: ");
        reveal_strlit("cannot parse time: ");
        reveal_strlit(" already specified");
        reveal_strlit("Incomplete cronline: missing ");
        reveal_strlit("cannot parse time: Incomplete cronline: missing ");
        reveal_strlit("no message specified");
        reveal_strlit("Invalid time: never occurs");
        reveal_strlit("No event number supplied");
        reveal_strlit("Invalid event number");
        reveal_strlit("No arguments specified");
        reveal_strlit("No tag specified");
        reveal_strlit("No event at this number");
        reveal_strlit("No tag supplied");
        reveal_strlit("No events with tag \"");
        reveal_strlit("\"");
    }
    let mut r = String::new();
    r.append("Error: ");
    match err {
        AgendaError::AlreadySpecified(col) => {
            r.append("cannot parse time: ");
            r.append(column_label(*col));
            r.append(" already specified");
        },
        AgendaError::IncompleteCronline(cols) => {
            r.append("cannot parse time: Incomplete cronline: missing ");
            let list = join_comma_from(cols, 0);
            r.append(list.as_str());
            proof {
                assert(cols@.skip(0) =~= cols@);
            }
        },
        AgendaError::NoMessage => {
            r.append("no message specified");
        },
        AgendaError::NeverOccurs => {
            r.append("Invalid time: never occurs");
        },
        AgendaError::NoEventNumber => {
            r.append("No event number supplied");
        },
        AgendaError::InvalidEventNumber => {
            r.append("Invalid event number");
        },
        AgendaError::NoArguments => {
            r.append("No arguments specified");
        },
        AgendaError::NoTag => {
            r.append("No tag specified");
        },
        AgendaError::NoEventAtNumber => {
            r.append("No event at this number");
        },
        AgendaError::NoTagSupplied => {
            r.append("No tag supplied");
        },
        AgendaError::NoEventsWithTag(tag) => {
            r.append("No events with tag \"");
            r.append(tag.as_str());
            r.append("\"");
        },
    }
    proof {
        assert(r@ =~= "Error: "@ + spec_error_message(*err));
    }
    r
}

} // verus!
