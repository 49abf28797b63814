//! Cleaning marker-delimited date and time tokens and turning them into an
//! instant with a fixed zero offset from UTC.

use crate::extractor::RestProxyLog;
use crate::text::{chars_of, find, first_index, occurs_at};
use chrono::format::ParseErrorKind;
use chrono::DateTime;
use vstd::prelude::*;
use vstd::string::*;

verus! {

/// Why a composed date and time did not parse.
#[derive(Clone, Copy, Debug, PartialEq, Eq, Structural)]
pub enum ParseFailure {
    /// A field is outside its permitted range.
    OutOfRange,
    /// No date and time has the given fields.
    Impossible,
    /// The fields do not determine a date and time.
    NotEnough,
    /// The text has a character that the pattern does not allow there.
    Invalid,
    /// The text ended before the pattern did.
    TooShort,
    /// Text remained after the pattern was used up.
    TooLong,
    /// The pattern itself is malformed.
    BadFormat,
    /// A category that this library does not know by name.
    Other,
}

/// A parsed instant: its rendering, and its seconds since the epoch.
#[derive(Clone, Debug, PartialEq, Eq)]
pub struct Moment {
    pub text: String,
    pub seconds: i64,
}

/// The marker that precedes the year in a date token.
pub open spec fn date_marker() -> Seq<char> {
    seq!['m', '2', '0']
}

/// The marker that introduces fractional seconds in a time token.
pub open spec fn fraction_marker() -> Seq<char> {
    seq!['.']
}

/// A date token without its prefix: what follows the first character of the
/// first marker, or the whole token where it has no marker.
pub open spec fn date_part(token: Seq<char>) -> Seq<char> {
    match first_index(token, date_marker()) {
        Some(p) => token.subrange(p + 1, token.len() as int),
        None => token,
    }
}

/// A time token without its fraction: what precedes the first `.`, or the
/// whole token where it has none.
pub open spec fn time_part(token: Seq<char>) -> Seq<char> {
    match first_index(token, fraction_marker()) {
        Some(p) => token.subrange(0, p),
        None => token,
    }
}

/// The text handed to the date-time parser for a date and a time token.
pub open spec fn stamp(date: Seq<char>, time: Seq<char>) -> Seq<char> {
    date_part(date) + " "@ + time_part(time) + " +00:00"@
}

/// The pattern that a composed stamp is parsed against.
pub open spec fn stamp_pattern() -> Seq<char> {
    "%Y-%m-%d %H:%M:%S %z"@
}

/// What chrono's `DateTime::parse_from_str` makes of a text under a pattern:
/// the rendering and the epoch seconds of the instant, or the category of its
/// error.
pub uninterp spec fn parsed(text: Seq<char>, pattern: Seq<char>) -> Result<(Seq<char>, i64), ParseFailure>;

/// Calls chrono's `DateTime::parse_from_str` and hands back, for an instant,
/// its `to_string` and its `timestamp`, and for an error its `kind`. The
/// contract claims only that this outcome is a function of the two texts.
#[verifier::external_body]
fn parse_from_str(text: &str, pattern: &str) -> (r: Result<Moment, ParseFailure>)
    ensures
        match r {
            Ok(m) => parsed(text@, pattern@) == Ok::<(Seq<char>, i64), ParseFailure>((m.text@, m.seconds)),
            Err(e) => parsed(text@, pattern@) == Err::<(Seq<char>, i64), ParseFailure>(e),
        },
{
    match DateTime::parse_from_str(text, pattern) {
        Ok(t) => Ok(Moment { text: t.to_string(), seconds: t.timestamp() }),
        Err(e) => Err(match e.kind() {
            ParseErrorKind::OutOfRange => ParseFailure::OutOfRange,
            ParseErrorKind::Impossible => ParseFailure::Impossible,
            ParseErrorKind::NotEnough => ParseFailure::NotEnough,
            ParseErrorKind::Invalid => ParseFailure::Invalid,
            ParseErrorKind::TooShort => ParseFailure::TooShort,
            ParseErrorKind::TooLong => ParseFailure::TooLong,
            ParseErrorKind::BadFormat => ParseFailure::BadFormat,
            _ => ParseFailure::Other,
        }),
    }
}

/// What a parse of a stamp yields, as the parser's outcome on plain values.
pub open spec fn moment_outcome(r: Result<Moment, ParseFailure>) -> Result<(Seq<char>, i64), ParseFailure> {
    match r {
        Ok(m) => Ok((m.text@, m.seconds)),
        Err(e) => Err(e),
    }
}

impl RestProxyLog {
    /// Strips the prefix of a date token, up to and including the `m` of the
    /// first `m20`.
    pub fn extract_date(date: &str) -> (r: String)
        ensures
            r@ == date_part(date@),
    {
        let cs = chars_of(date);
        let mut marker: Vec<char> = Vec::new();
        marker.push('m');
        marker.push('2');
        marker.push('0');
        assert(marker@ =~= date_marker());
        match find(&cs, &marker) {
            Some(p) => {
                let n: usize = cs.len();
                assert(marker@.len() == 3 && occurs_at(cs@, marker@, p as int));
                date.substring_char(p + 1, n).to_owned()
            },
            None => date.to_owned(),
        }
    }

    /// Cuts a time token at its first `.`.
    pub fn extract_time(time: &str) -> (r: String)
        ensures
            r@ == time_part(time@),
    {
        let cs = chars_of(time);
        let mut marker: Vec<char> = Vec::new();
        marker.push('.');
        assert(marker@ =~= fraction_marker());
        match find(&cs, &marker) {
            Some(p) => time.substring_char(0, p).to_owned(),
            None => time.to_owned(),
        }
    }

    /// Composes `"<date> <time> +00:00"` from the cleaned tokens and parses it
    /// as year-month-day, hour:minute:second and offset.
    pub fn parse_date_time(date: &str, time: &str) -> (r: Result<Moment, ParseFailure>)
        ensures
            moment_outcome(r) == parsed(stamp(date@, time@), stamp_pattern()),
    {
        let date = Self::extract_date(date);
        let time = Self::extract_time(time);
        let mut text = date;
        text.append(" ");
        text.append(time.as_str());
        text.append(" +00:00");
        parse_from_str(text.as_str(), "%Y-%m-%d %H:%M:%S %z")
    }
}

} // verus!
