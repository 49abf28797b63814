//! Splitting a duration token into its number and its unit.

use crate::extractor::RestProxyLog;
use crate::text::{chars_of, find, first_index, occurs_at};
use vstd::prelude::*;
use vstd::string::*;

verus! {

/// The unit that a duration token ends in.
#[derive(Clone, Copy, Debug, PartialEq, Eq, Structural)]
pub enum Unit {
    Millis,
    Seconds,
}

/// A duration token cut before its unit: the text of the number, not yet
/// read as one, and the unit. A token without a usable unit is kept whole,
/// with no unit; its duration counts as zero.
#[derive(Clone, Debug, PartialEq, Eq)]
pub struct ExecTime {
    pub number: String,
    pub unit: Option<Unit>,
}

impl View for ExecTime {
    type V = (Seq<char>, Option<Unit>);

    open spec fn view(&self) -> (Seq<char>, Option<Unit>) {
        (self.number@, self.unit)
    }
}

/// The marker of a duration in milliseconds.
pub open spec fn millis_marker() -> Seq<char> {
    seq!['m', 's']
}

/// The marker of a duration in seconds.
pub open spec fn seconds_marker() -> Seq<char> {
    seq!['s']
}

/// The number text and the unit of a duration token. A token that holds `ms`
/// is cut before the first one. Any other token is cut before its first `s`,
/// and has no unit where it holds no `s` or starts with it.
pub open spec fn exec_time_parts(token: Seq<char>) -> (Seq<char>, Option<Unit>) {
    match first_index(token, millis_marker()) {
        Some(i) => (token.subrange(0, i), Some(Unit::Millis)),
        None => match first_index(token, seconds_marker()) {
            Some(i) => if i == 0 {
                (token, None)
            } else {
                (token.subrange(0, i), Some(Unit::Seconds))
            },
            None => (token, None),
        },
    }
}

impl Unit {
    /// How many milliseconds one of this unit holds.
    pub fn millis(self) -> (r: i32)
        ensures
            r == match self {
                Unit::Millis => 1i32,
                Unit::Seconds => 1000i32,
            },
    {
        match self {
            Unit::Millis => 1,
            Unit::Seconds => 1000,
        }
    }
}

impl RestProxyLog {
    /// Cuts a duration token before its unit.
    pub fn split_exec_time(time: &str) -> (r: ExecTime)
        ensures
            r@ == exec_time_parts(time@),
    {
        let cs = chars_of(time);
        let mut ms: Vec<char> = Vec::new();
        ms.push('m');
        ms.push('s');
        assert(ms@ =~= millis_marker());
        let mut s: Vec<char> = Vec::new();
        s.push('s');
        assert(s@ =~= seconds_marker());
        match find(&cs, &ms) {
            Some(i) => {
                assert(occurs_at(cs@, ms@, i as int));
                ExecTime { number: time.substring_char(0, i).to_owned(), unit: Some(Unit::Millis) }
            },
            None => match find(&cs, &s) {
                Some(i) => {
                    assert(occurs_at(cs@, s@, i as int));
                    if i == 0 {
                        ExecTime { number: time.to_owned(), unit: None }
                    } else {
                        ExecTime {
                            number: time.substring_char(0, i).to_owned(),
                            unit: Some(Unit::Seconds),
                        }
                    }
                },
                None => ExecTime { number: time.to_owned(), unit: None },
            },
        }
    }
}

} // verus!
