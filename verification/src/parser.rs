//! The line grammar: three fields separated by semicolons.

use crate::entry::{entry_views, LogEntry, LogEntryView};
use crate::pattern::{capture_groups, regex_captures, regex_compiled};
use crate::timestamp::{parsed_timestamp, Timestamp};
use regex::Regex;
use vstd::prelude::*;

verus! {

/// The grammar of a log line: a timestamp of the shape `dd/mm/yyyy hh:mm`, a
/// level of one or more word characters, and a message of at least one
/// character, separated by semicolons that whitespace may follow. A match
/// begins at the first character of the line and nowhere else: nothing, not
/// even whitespace, may stand before the timestamp.
pub const LOG_PATTERN: &'static str = r"^(\d{2}/\d{2}/\d{4} \d{2}:\d{2});\s*(\w+);\s*(.+)";

/// The line grammar as a compiled regex, where the regex engine compiles it.
pub open spec fn line_grammar() -> Option<Regex> {
    regex_compiled(LOG_PATTERN@)
}

/// The three fields that a set of capture groups holds for the line grammar:
/// the groups after the whole match, where there are exactly three and each
/// took part in the match.
pub open spec fn fields_of_groups(groups: Option<Seq<Option<Seq<char>>>>) -> Option<
    (Seq<char>, Seq<char>, Seq<char>),
> {
    match groups {
        Some(g) => if g.len() == 4 && g[1] is Some && g[2] is Some && g[3] is Some {
            Some((g[1]->0, g[2]->0, g[3]->0))
        } else {
            None
        },
        None => None,
    }
}

/// The record made of a timestamp, if one was read, and two texts.
pub open spec fn entry_of_parts(
    timestamp: Option<Timestamp>,
    log_type: Seq<char>,
    message: Seq<char>,
) -> Option<LogEntryView> {
    match timestamp {
        Some(t) => Some(LogEntryView { timestamp: t, log_type, message }),
        None => None,
    }
}

/// The record that a set of capture groups denotes: its three fields, the
/// first read as a timestamp. `None` where the fields are not all there or
/// the first is no timestamp.
pub open spec fn entry_of_groups(groups: Option<Seq<Option<Seq<char>>>>) -> Option<LogEntryView> {
    match fields_of_groups(groups) {
        Some((stamp, log_type, message)) => entry_of_parts(
            parsed_timestamp(stamp),
            log_type,
            message,
        ),
        None => None,
    }
}

/// The record that a match of the line grammar denotes: the record of its
/// capture groups where the match starts at the first character of the
/// line, and none where it starts later or there is no match.
pub open spec fn entry_of_capture(found: Option<(usize, Seq<Option<Seq<char>>>)>) -> Option<
    LogEntryView,
> {
    match found {
        Some((start, groups)) => if start == 0 {
            entry_of_groups(Some(groups))
        } else {
            None
        },
        None => None,
    }
}

/// The record that a line denotes under the line grammar, if any: that of
/// the match which the compiled grammar finds in the line.
pub open spec fn parsed_line(line: Seq<char>) -> Option<LogEntryView> {
    match line_grammar() {
        Some(re) => entry_of_capture(regex_captures(re, line)),
        None => None,
    }
}

/// The value of an optional record.
pub open spec fn entry_option_view(entry: Option<LogEntry>) -> Option<LogEntryView> {
    match entry {
        Some(e) => Some(e@),
        None => None,
    }
}

/// The line grammar, compiled once and used for every line.
pub struct LineParser {
    re: Regex,
}

impl LineParser {
    #[verifier::type_invariant]
    spec fn holds_line_grammar(self) -> bool {
        line_grammar() == Some(self.re)
    }

    /// Compiles the line grammar. There is a parser exactly where the regex
    /// engine compiles the grammar, and it holds the regex compiled.
    pub fn new() -> (r: Option<LineParser>)
        ensures
            r is Some <==> line_grammar() is Some,
            r matches Some(parser) ==> line_grammar() == Some(parser.grammar()),
    {
        LineParser::from_compiled(Regex::new(LOG_PATTERN))
    }

    /// Makes a parser of the outcome of compiling the line grammar: there is
    /// one exactly where the grammar compiled, and it holds the regex that
    /// was compiled.
    pub fn from_compiled(compiled: Result<Regex, regex::Error>) -> (r: Option<LineParser>)
        requires
            compiled matches Ok(re) ==> line_grammar() == Some(re),
        ensures
            r is Some <==> compiled is Ok,
            r matches Some(parser) ==> compiled == Ok::<Regex, regex::Error>(parser.grammar())
                && line_grammar() == Some(parser.grammar()),
    {
        match compiled {
            Ok(re) => Some(LineParser { re }),
            Err(_) => None,
        }
    }

    /// The compiled regex that this parser matches lines with.
    pub closed spec fn grammar(self) -> Regex {
        self.re
    }
}

/// Builds a record from a timestamp, if one was read, and two texts.
pub fn entry_from_parts(timestamp: Option<Timestamp>, log_type: String, message: String) -> (r:
    Option<LogEntry>)
    ensures
        entry_option_view(r) == entry_of_parts(timestamp, log_type@, message@),
{
    match timestamp {
        Some(t) => Some(LogEntry { timestamp: t, log_type, message }),
        None => None,
    }
}

/// Builds a record from the capture groups of a line: the three groups after
/// the whole match are its timestamp, level and message.
pub fn entry_from_groups(groups: Option<Vec<Option<String>>>) -> (r: Option<LogEntry>)
    ensures
        entry_option_view(r) == entry_of_groups(groups.deep_view()),
        r matches Some(entry) ==> entry.timestamp.is_calendar(),
{
    match groups {
        Some(mut g) => {
            if g.len() != 4 {
                return None;
            }
            let message = g.pop().unwrap();
            let log_type = g.pop().unwrap();
            let stamp = g.pop().unwrap();
            match (stamp, log_type, message) {
                (Some(s), Some(l), Some(m)) => {
                    let timestamp = Timestamp::parse(s.as_str());
                    entry_from_parts(timestamp, l, m)
                },
                _ => None,
            }
        },
        None => None,
    }
}

/// Builds a record from what the line grammar found in a line: the offset
/// at which the match starts, and its capture groups. A match that does not
/// start at the first character of the line gives no record.
pub fn entry_from_capture(found: Option<(usize, Vec<Option<String>>)>) -> (r: Option<LogEntry>)
    ensures
        entry_option_view(r) == entry_of_capture(found.deep_view()),
        r matches Some(entry) ==> entry.timestamp.is_calendar(),
{
    match found {
        Some((start, groups)) => {
            if start == 0 {
                entry_from_groups(Some(groups))
            } else {
                None
            }
        },
        None => None,
    }
}

/// Parses one line: the record it denotes, or `None` where it does not fit
/// the grammar from its first character on, or its timestamp is no calendar
/// date and time.
pub fn parse_log_line(parser: &LineParser, line: &str) -> (r: Option<LogEntry>)
    ensures
        entry_option_view(r) == parsed_line(line@),
        r matches Some(entry) ==> entry.timestamp.is_calendar(),
{
    proof {
        use_type_invariant(parser);
    }
    entry_from_capture(capture_groups(&parser.re, line))
}

/// The texts of a sequence of lines, in the same order.
pub open spec fn line_texts(lines: Seq<String>) -> Seq<Seq<char>> {
    lines.map_values(|l: String| l@)
}

/// Reading one line, as a function.
pub open spec fn line_reader() -> spec_fn(Seq<char>) -> Option<LogEntryView> {
    |line: Seq<char>| parsed_line(line)
}

/// The records that a sequence of lines denotes: one for each line that fits
/// the grammar, in the order of the lines; the other lines leave no trace.
pub open spec fn parsed_lines(lines: Seq<Seq<char>>) -> Seq<LogEntryView> {
    lines.filter_map(line_reader())
}

/// The lines among `lines` that denote no record.
pub open spec fn malformed_lines(lines: Seq<Seq<char>>) -> Seq<Seq<char>> {
    lines.filter(|line: Seq<char>| parsed_line(line) is None)
}

/// Parses every line in order and keeps the records of those that fit the
/// grammar. Lines that do not fit are skipped; none is an error.
pub fn load_logs(parser: &LineParser, lines: &[String]) -> (r: Vec<LogEntry>)
    ensures
        entry_views(r@) == parsed_lines(line_texts(lines@)),
        forall|i: int| 0 <= i < r@.len() ==> (#[trigger] r@[i]).timestamp.is_calendar(),
{
    let ghost texts = line_texts(lines@);
    let mut logs: Vec<LogEntry> = Vec::new();
    let mut i: usize = 0;
    while i < lines.len()
        invariant
            i <= lines.len(),
            texts == line_texts(lines@),
            entry_views(logs@) == parsed_lines(texts.take(i as int)),
            forall|k: int| 0 <= k < logs@.len() ==> (#[trigger] logs@[k]).timestamp.is_calendar(),
        decreases lines.len() - i,
    {
        let ghost before = logs@;
        let parsed = parse_log_line(parser, lines[i].as_str());
        proof {
            texts.lemma_filter_map_take_succ(line_reader(), i as int);
        }
        match parsed {
            Some(entry) => {
                logs.push(entry);
                assert(entry_views(logs@) =~= entry_views(before) + seq![entry@]);
            },
            None => {},
        }
        i += 1;
    }
    assert(texts.take(lines.len() as int) =~= texts);
    logs
}

/// Records come out in the order of their lines: the records of two runs of
/// lines, one after the other, are the records of the first followed by the
/// records of the second.
pub proof fn records_keep_line_order(first: Seq<Seq<char>>, second: Seq<Seq<char>>)
    ensures
        parsed_lines(first + second) == parsed_lines(first) + parsed_lines(second),
    decreases second.len(),
{
    if second.len() == 0 {
        assert(first + second =~= first);
        assert(parsed_lines(first) + parsed_lines(second) =~= parsed_lines(first));
    } else {
        let all = first + second;
        assert(all.drop_last() =~= first + second.drop_last());
        assert(all.last() == second.last());
        records_keep_line_order(first, second.drop_last());
        match parsed_line(second.last()) {
            Some(e) => {
                assert(parsed_lines(all) =~= parsed_lines(first) + parsed_lines(second));
            },
            None => {},
        }
    }
}

/// A single line gives one record where it fits the grammar and none where
/// it does not.
pub proof fn record_of_single_line(line: Seq<char>)
    ensures
        parsed_lines(seq![line]) == match parsed_line(line) {
            Some(e) => seq![e],
            None => Seq::<LogEntryView>::empty(),
        },
{
    Seq::lemma_filter_map_singleton(line, line_reader());
}

/// Of `n` lines of which `m` are malformed, exactly `n - m` records remain.
pub proof fn malformed_lines_are_skipped(lines: Seq<Seq<char>>)
    ensures
        parsed_lines(lines).len() + malformed_lines(lines).len() == lines.len(),
    decreases lines.len(),
{
    reveal(Seq::filter);
    if lines.len() > 0 {
        malformed_lines_are_skipped(lines.drop_last());
    }
}

/// No lines, no records.
pub proof fn no_lines_no_records()
    ensures
        parsed_lines(Seq::<Seq<char>>::empty()) == Seq::<LogEntryView>::empty(),
{
}

} // verus!
