//! Extraction of entries from log lines: filtering, tokenizing, parsing,
//! merging the sources and ordering the result.

use crate::duration::{exec_time_parts, ExecTime, Unit};
use crate::order::{is_stable_sort, sort_by_timestamp};
use crate::text::{chars_of, contains, find};
use crate::timestamp::{moment_outcome, parsed, stamp, stamp_pattern, Moment, ParseFailure};
use crate::tokens::{pieces, token_spans, tokens};
use vstd::prelude::*;
use vstd::string::*;

verus! {

/// What to read and where in a line to find it.
pub struct RestProxyLog {
    pub files: Vec<String>,
    pub filters: Vec<String>,
    pub date_index: usize,
    pub time_index: usize,
    pub exec_time_index: usize,
}

/// One request: when it was logged and how long it ran, in milliseconds.
#[derive(Clone, Debug, PartialEq, Eq)]
pub struct Response {
    pub date_as_string: String,
    pub date_as_timestamp: i64,
    pub exec_time: i32,
}

/// One accepted line: when it was logged, and its duration token cut before
/// the unit.
#[derive(Clone, Debug, PartialEq, Eq)]
pub struct Entry {
    pub date_as_string: String,
    pub date_as_timestamp: i64,
    pub exec_time: ExecTime,
}

/// An entry on plain values.
pub struct EntryModel {
    pub date_as_string: Seq<char>,
    pub date_as_timestamp: i64,
    pub exec_time: (Seq<char>, Option<Unit>),
}

impl View for Entry {
    type V = EntryModel;

    open spec fn view(&self) -> EntryModel {
        EntryModel {
            date_as_string: self.date_as_string@,
            date_as_timestamp: self.date_as_timestamp,
            exec_time: self.exec_time@,
        }
    }
}

impl Entry {
    /// The record of this entry, once its duration is known in milliseconds.
    pub fn response(self, exec_time: i32) -> (r: Response)
        ensures
            r.date_as_string == self.date_as_string,
            r.date_as_timestamp == self.date_as_timestamp,
            r.exec_time == exec_time,
    {
        Response {
            date_as_string: self.date_as_string,
            date_as_timestamp: self.date_as_timestamp,
            exec_time,
        }
    }
}

/// The entries of a list, each on plain values.
pub open spec fn models(entries: Seq<Entry>) -> Seq<EntryModel> {
    entries.map_values(|e: Entry| e@)
}

/// A line that passes the filter and whose date and time tokens do not make
/// a timestamp: the two tokens, and the parser's reason.
#[derive(Clone, Debug, PartialEq, Eq)]
pub struct Rejected {
    pub date: String,
    pub time: String,
    pub why: ParseFailure,
}

/// A rejected line on plain values.
pub struct RejectedModel {
    pub date: Seq<char>,
    pub time: Seq<char>,
    pub why: ParseFailure,
}

impl View for Rejected {
    type V = RejectedModel;

    open spec fn view(&self) -> RejectedModel {
        RejectedModel { date: self.date@, time: self.time@, why: self.why }
    }
}

/// The rejected lines of a list, each on plain values.
pub open spec fn rejections(rejected: Seq<Rejected>) -> Seq<RejectedModel> {
    rejected.map_values(|r: Rejected| r@)
}

/// What an extraction yields: the entries, and what to tell of the lines
/// that were skipped.
#[derive(Clone, Debug, PartialEq, Eq)]
pub struct Extract {
    pub entries: Vec<Entry>,
    pub rejected: Vec<Rejected>,
}

/// What became of one line.
#[derive(Clone, Debug, PartialEq, Eq)]
pub enum Outcome {
    /// The line does not pass the filter.
    Ignored,
    /// The line has no token at one of the configured positions.
    TooFewTokens,
    /// The date and time tokens do not make a timestamp.
    Rejected(Rejected),
    /// The line yields an entry.
    Kept(Entry),
}

/// An outcome on plain values.
pub enum OutcomeModel {
    Ignored,
    TooFewTokens,
    Rejected(RejectedModel),
    Kept(EntryModel),
}

impl View for Outcome {
    type V = OutcomeModel;

    open spec fn view(&self) -> OutcomeModel {
        match *self {
            Outcome::Ignored => OutcomeModel::Ignored,
            Outcome::TooFewTokens => OutcomeModel::TooFewTokens,
            Outcome::Rejected(r) => OutcomeModel::Rejected(r@),
            Outcome::Kept(e) => OutcomeModel::Kept(e@),
        }
    }
}

/// What a line with its three tokens comes to, given what the parser made
/// of its date and time: rejected with the parser's reason, or kept with
/// the parsed instant and the split duration token.
pub open spec fn line_result(
    date: Seq<char>,
    time: Seq<char>,
    exec: Seq<char>,
    instant: Result<(Seq<char>, i64), ParseFailure>,
) -> OutcomeModel {
    match instant {
        Err(why) => OutcomeModel::Rejected(RejectedModel { date, time, why }),
        Ok(m) => OutcomeModel::Kept(
            EntryModel {
                date_as_string: m.0,
                date_as_timestamp: m.1,
                exec_time: exec_time_parts(exec),
            },
        ),
    }
}

impl Outcome {
    /// The outcome of a line from its three tokens and the parsed instant.
    pub fn of(date: &str, time: &str, exec: &str, instant: Result<Moment, ParseFailure>) -> (r: Outcome)
        ensures
            r@ == line_result(date@, time@, exec@, moment_outcome(instant)),
    {
        match instant {
            Err(why) => Outcome::Rejected(
                Rejected { date: date.to_owned(), time: time.to_owned(), why },
            ),
            Ok(m) => Outcome::Kept(
                Entry {
                    date_as_string: m.text,
                    date_as_timestamp: m.seconds,
                    exec_time: RestProxyLog::split_exec_time(exec),
                },
            ),
        }
    }
}

/// Why the extraction of a source was abandoned.
#[derive(Clone, Copy, Debug, PartialEq, Eq, Structural)]
pub enum ExtractError {
    /// The line with this index in its source passes the filter and has no
    /// token at one of the configured positions.
    TokenIndexOutOfRange { line: usize },
}

/// An extraction error, with the index of the source it arose in.
#[derive(Clone, Copy, Debug, PartialEq, Eq, Structural)]
pub struct SourceError {
    pub source: usize,
    pub error: ExtractError,
}

impl RestProxyLog {
    /// Whether every filter term is a substring of the line.
    pub open spec fn accepts(&self, line: Seq<char>) -> bool {
        forall|k: int| 0 <= k < self.filters@.len() ==> contains(line, #[trigger] self.filters@[k]@)
    }

    /// A configuration of the files to read, the terms that a line must
    /// hold, and the positions of the date, time and duration tokens.
    pub fn new(
        files: Vec<String>,
        filters: Vec<String>,
        date_index: usize,
        time_index: usize,
        exec_time_index: usize,
    ) -> (r: Self)
        ensures
            r.files == files,
            r.filters == filters,
            r.date_index == date_index,
            r.time_index == time_index,
            r.exec_time_index == exec_time_index,
    {
        RestProxyLog { files, filters, date_index, time_index, exec_time_index }
    }

    /// Whether the line passes the filter: all terms must occur in it.
    pub fn includes(&self, line: &str) -> (r: bool)
        ensures
            r == self.accepts(line@),
    {
        let cs = chars_of(line);
        let mut k: usize = 0;
        while k < self.filters.len()
            invariant
                k <= self.filters.len(),
                cs@ == line@,
                forall|j: int| 0 <= j < k ==> contains(line@, #[trigger] self.filters@[j]@),
            decreases self.filters.len() - k,
        {
            let term = chars_of(self.filters[k].as_str());
            if find(&cs, &term).is_none() {
                return false;
            }
            k += 1;
        }
        true
    }

    /// What a line comes to. A line that fails the filter is ignored. One
    /// that passes needs a token at each of the three positions. Its date
    /// and time tokens are then parsed, and where they make a timestamp the
    /// duration token is split.
    pub open spec fn line_outcome(&self, line: Seq<char>) -> OutcomeModel {
        let t = tokens(line);
        if !self.accepts(line) {
            OutcomeModel::Ignored
        } else if self.date_index >= t.len() || self.time_index >= t.len() || self.exec_time_index
            >= t.len() {
            OutcomeModel::TooFewTokens
        } else {
            let date = t[self.date_index as int];
            let time = t[self.time_index as int];
            line_result(
                date,
                time,
                t[self.exec_time_index as int],
                parsed(stamp(date, time), stamp_pattern()),
            )
        }
    }

    /// The line passes the filter and lacks a configured token.
    pub open spec fn too_short(&self, line: Seq<char>) -> bool {
        self.line_outcome(line) is TooFewTokens
    }

    /// No line of the source lacks a configured token.
    pub open spec fn clean(&self, lines: Seq<String>) -> bool {
        forall|i: int| 0 <= i < lines.len() ==> !self.too_short(#[trigger] lines[i]@)
    }

    /// Line `i` is the first of the source that lacks a configured token.
    pub open spec fn fails_at(&self, lines: Seq<String>, i: int) -> bool {
        &&& 0 <= i < lines.len()
        &&& self.too_short(lines[i]@)
        &&& forall|j: int| 0 <= j < i ==> !self.too_short(#[trigger] lines[j]@)
    }

    /// The entries of the kept lines of a source, in line order.
    pub open spec fn kept(&self, lines: Seq<String>) -> Seq<EntryModel>
        decreases lines.len(),
    {
        if lines.len() == 0 {
            Seq::empty()
        } else {
            let before = self.kept(lines.drop_last());
            match self.line_outcome(lines.last()@) {
                OutcomeModel::Kept(e) => before.push(e),
                _ => before,
            }
        }
    }

    /// The rejected lines of a source, in line order.
    pub open spec fn dropped(&self, lines: Seq<String>) -> Seq<RejectedModel>
        decreases lines.len(),
    {
        if lines.len() == 0 {
            Seq::empty()
        } else {
            let before = self.dropped(lines.drop_last());
            match self.line_outcome(lines.last()@) {
                OutcomeModel::Rejected(r) => before.push(r),
                _ => before,
            }
        }
    }

    /// The rejected lines of all sources: source after source, line after
    /// line.
    pub open spec fn all_dropped(&self, sources: Seq<Vec<String>>) -> Seq<RejectedModel>
        decreases sources.len(),
    {
        if sources.len() == 0 {
            Seq::empty()
        } else {
            self.all_dropped(sources.drop_last()) + self.dropped(sources.last()@)
        }
    }

    /// The kept entries of all sources: source after source, line after line.
    pub open spec fn gathered(&self, sources: Seq<Vec<String>>) -> Seq<EntryModel>
        decreases sources.len(),
    {
        if sources.len() == 0 {
            Seq::empty()
        } else {
            self.gathered(sources.drop_last()) + self.kept(sources.last()@)
        }
    }

    /// Filters, tokenizes and parses one line.
    pub fn process_line(&self, line: &str) -> (r: Outcome)
        ensures
            r@ == self.line_outcome(line@),
    {
        if !self.includes(line) {
            return Outcome::Ignored;
        }
        let cs = chars_of(line);
        let spans = token_spans(&cs);
        let n: usize = spans.len();
        assert(pieces(cs@, spans@).len() == n);
        if self.date_index >= n || self.time_index >= n || self.exec_time_index >= n {
            return Outcome::TooFewTokens;
        }
        let d = spans[self.date_index];
        let t = spans[self.time_index];
        let x = spans[self.exec_time_index];
        assert(pieces(cs@, spans@)[self.date_index as int] == cs@.subrange(d.0 as int, d.1 as int));
        assert(pieces(cs@, spans@)[self.time_index as int] == cs@.subrange(t.0 as int, t.1 as int));
        assert(pieces(cs@, spans@)[self.exec_time_index as int] == cs@.subrange(
            x.0 as int,
            x.1 as int,
        ));
        let date = line.substring_char(d.0, d.1);
        let time = line.substring_char(t.0, t.1);
        let exec = line.substring_char(x.0, x.1);
        Outcome::of(date, time, exec, Self::parse_date_time(date, time))
    }

    /// Extracts the entries of one source, in line order. Lines that fail
    /// the filter are left out. Lines whose timestamp does not parse are left
    /// out of the entries and listed as rejected. The first line that passes
    /// the filter and lacks a configured token ends the extraction with an
    /// error.
    pub fn process(&self, lines: &Vec<String>) -> (r: Result<Extract, ExtractError>)
        ensures
            match r {
                Ok(x) => {
                    &&& self.clean(lines@)
                    &&& models(x.entries@) == self.kept(lines@)
                    &&& rejections(x.rejected@) == self.dropped(lines@)
                },
                Err(ExtractError::TokenIndexOutOfRange { line }) => self.fails_at(lines@, line as int),
            },
    {
        let mut entries: Vec<Entry> = Vec::new();
        let mut rejected: Vec<Rejected> = Vec::new();
        let mut i: usize = 0;
        assert(lines@.take(0) =~= Seq::empty());
        assert(models(entries@) =~= self.kept(lines@.take(0)));
        assert(rejections(rejected@) =~= self.dropped(lines@.take(0)));
        while i < lines.len()
            invariant
                i <= lines.len(),
                self.clean(lines@.take(i as int)),
                models(entries@) == self.kept(lines@.take(i as int)),
                rejections(rejected@) == self.dropped(lines@.take(i as int)),
            decreases lines.len() - i,
        {
            let ghost kept_before = models(entries@);
            let ghost dropped_before = rejections(rejected@);
            assert(lines@.take(i + 1).drop_last() =~= lines@.take(i as int));
            assert(lines@.take(i + 1).last() == lines@[i as int]);
            match self.process_line(lines[i].as_str()) {
                Outcome::TooFewTokens => {
                    assert forall|j: int| 0 <= j < i implies !self.too_short(#[trigger] lines@[j]@) by {
                        assert(lines@.take(i as int)[j] == lines@[j]);
                    }
                    return Err(ExtractError::TokenIndexOutOfRange { line: i });
                },
                Outcome::Kept(e) => {
                    entries.push(e);
                    assert(models(entries@) =~= kept_before.push(e@));
                },
                Outcome::Rejected(r) => {
                    rejected.push(r);
                    assert(rejections(rejected@) =~= dropped_before.push(r@));
                },
                Outcome::Ignored => {},
            }
            assert forall|j: int| 0 <= j < i + 1 implies !self.too_short(
                #[trigger] lines@.take(i + 1)[j]@,
            ) by {
                if j < i {
                    assert(lines@.take(i as int)[j] == lines@[j]);
                }
            }
            i += 1;
        }
        assert(lines@.take(i as int) =~= lines@);
        Ok(Extract { entries, rejected })
    }

    /// Extracts the entries of all sources and puts them in chronological
    /// order. Entries with the same timestamp stay in the order of their
    /// sources and, within a source, of their lines. The rejected lines are
    /// listed in the order of their sources and lines. The first source with
    /// a line that lacks a configured token ends the extraction with an
    /// error that names the source and the line.
    pub fn get(&self, sources: &Vec<Vec<String>>) -> (r: Result<Extract, SourceError>)
        ensures
            match r {
                Ok(x) => {
                    &&& forall|s: int| 0 <= s < sources@.len() ==> self.clean(#[trigger] sources@[s]@)
                    &&& is_stable_sort(self.gathered(sources@), models(x.entries@))
                    &&& rejections(x.rejected@) == self.all_dropped(sources@)
                },
                Err(e) => {
                    &&& 0 <= e.source < sources@.len()
                    &&& e.error matches ExtractError::TokenIndexOutOfRange { line }
                    &&& self.fails_at(sources@[e.source as int]@, line as int)
                    &&& forall|t: int| 0 <= t < e.source ==> self.clean(#[trigger] sources@[t]@)
                },
            },
    {
        let mut buffer: Vec<Entry> = Vec::new();
        let mut rejected: Vec<Rejected> = Vec::new();
        let mut s: usize = 0;
        assert(sources@.take(0) =~= Seq::empty());
        assert(models(buffer@) =~= self.gathered(sources@.take(0)));
        assert(rejections(rejected@) =~= self.all_dropped(sources@.take(0)));
        while s < sources.len()
            invariant
                s <= sources.len(),
                forall|t: int| 0 <= t < s ==> self.clean(#[trigger] sources@[t]@),
                models(buffer@) == self.gathered(sources@.take(s as int)),
                rejections(rejected@) == self.all_dropped(sources@.take(s as int)),
            decreases sources.len() - s,
        {
            let ghost kept_before = buffer@;
            let ghost dropped_before = rejected@;
            assert(sources@.take(s + 1).drop_last() =~= sources@.take(s as int));
            assert(sources@.take(s + 1).last() == sources@[s as int]);
            match self.process(&sources[s]) {
                Err(error) => {
                    return Err(SourceError { source: s, error });
                },
                Ok(x) => {
                    let mut found = x.entries;
                    let mut skipped = x.rejected;
                    let ghost kept_now = found@;
                    let ghost dropped_now = skipped@;
                    buffer.append(&mut found);
                    rejected.append(&mut skipped);
                    assert(models(buffer@) =~= models(kept_before) + models(kept_now));
                    assert(rejections(rejected@) =~= rejections(dropped_before) + rejections(
                        dropped_now,
                    ));
                },
            }
            s += 1;
        }
        assert(sources@.take(s as int) =~= sources@);
        Ok(Extract { entries: sort_by_timestamp(buffer), rejected })
    }
}

/// A filter without terms accepts every line.
pub proof fn lemma_no_terms_accept_all(log: RestProxyLog, line: Seq<char>)
    requires
        log.filters@.len() == 0,
    ensures
        log.accepts(line),
{
}

} // verus!
