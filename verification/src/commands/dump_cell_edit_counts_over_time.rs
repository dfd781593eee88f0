//! The spans of time by which counts of cell edits are grouped.

use vstd::prelude::*;
use crate::text::str_eq;

verus! {

/// A span of time.
#[derive(Debug, Clone, Copy, PartialEq, Eq, Structural)]
pub enum TimeStep {
    Day,
    Week,
    Month,
}

/// The span that a word names: `day`, `week` or `month`, in lower case.
pub open spec fn time_step_of(word: Seq<char>) -> Option<TimeStep> {
    if word == "day"@ {
        Some(TimeStep::Day)
    } else if word == "week"@ {
        Some(TimeStep::Week)
    } else if word == "month"@ {
        Some(TimeStep::Month)
    } else {
        None
    }
}

impl TimeStep {
    /// Reads a span from the word that names it. Any other word is handed
    /// back in a message that says so.
    pub fn parse(s: &str) -> (r: Result<TimeStep, String>)
        ensures
            match r {
                Ok(step) => time_step_of(s@) == Some(step),
                Err(message) => time_step_of(s@) is None && message@ == "invalid time step: "@
                    + s@,
            },
    {
        if str_eq(s, "day") {
            Ok(TimeStep::Day)
        } else if str_eq(s, "week") {
            Ok(TimeStep::Week)
        } else if str_eq(s, "month") {
            Ok(TimeStep::Month)
        } else {
            let mut message = "invalid time step: ".to_owned();
            message.append(s);
            Err(message)
        }
    }
}

impl std::str::FromStr for TimeStep {
    type Err = String;

    /// Reads a span from the word that names it, as `parse` does: `day`,
    /// `week` and `month` give their span, and any other word is handed
    /// back in a message that says so.
    fn from_str(s: &str) -> (r: Result<TimeStep, String>)
        ensures
            match r {
                Ok(step) => time_step_of(s@) == Some(step),
                Err(message) => time_step_of(s@) is None && message@ == "invalid time step: "@
                    + s@,
            },
    {
        TimeStep::parse(s)
    }
}

} // verus!
