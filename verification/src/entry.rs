//! Log records.

use crate::timestamp::Timestamp;
use vstd::prelude::*;

verus! {

/// One parsed log line: when it was written, at which level, and what it says.
#[derive(Debug, Clone)]
pub struct LogEntry {
    pub timestamp: Timestamp,
    pub log_type: String,
    pub message: String,
}

/// The mathematical value of a [`LogEntry`]: its texts as character sequences.
pub struct LogEntryView {
    pub timestamp: Timestamp,
    pub log_type: Seq<char>,
    pub message: Seq<char>,
}

impl View for LogEntry {
    type V = LogEntryView;

    open spec fn view(&self) -> LogEntryView {
        LogEntryView {
            timestamp: self.timestamp,
            log_type: self.log_type@,
            message: self.message@,
        }
    }
}

/// The values of a sequence of records, in the same order.
pub open spec fn entry_views(entries: Seq<LogEntry>) -> Seq<LogEntryView> {
    entries.map_values(|e: LogEntry| e@)
}

/// The level tokens of a sequence of records, in the same order.
pub open spec fn level_tokens(entries: Seq<LogEntry>) -> Seq<Seq<char>> {
    entries.map_values(|e: LogEntry| e.log_type@)
}

} // verus!
