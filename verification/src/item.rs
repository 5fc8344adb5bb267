//! The record that a history hands out for an entry.

use vstd::prelude::*;
use crate::ident::HistoryItemId;
use crate::ident::HistorySessionId;

verus! {

/// One entry with what may be known about it beside its text.
#[derive(Debug, Clone, PartialEq, Eq)]
pub struct HistoryItem {
    /// The identifier under which the entry is stored.
    pub id: HistoryItemId,
    /// When the command was started, in milliseconds since the epoch.
    pub start_timestamp: Option<i64>,
    /// The text of the command.
    pub command_line: String,
    /// The session in which the command was run.
    pub session_id: Option<HistorySessionId>,
    /// The host on which the command was run.
    pub hostname: Option<String>,
    /// The working directory in which the command was run.
    pub cwd: Option<String>,
    /// How long the command ran, in milliseconds.
    pub duration: Option<u64>,
    /// The status with which the command ended.
    pub exit_status: Option<i64>,
}

impl HistoryItem {
    /// The record holds `id` and `text` and nothing else.
    pub open spec fn is_bare(&self, id: i64, text: Seq<char>) -> bool {
        &&& self.id == HistoryItemId(id)
        &&& self.command_line@ == text
        &&& self.start_timestamp is None
        &&& self.session_id is None
        &&& self.hostname is None
        &&& self.cwd is None
        &&& self.duration is None
        &&& self.exit_status is None
    }
}

} // verus!
