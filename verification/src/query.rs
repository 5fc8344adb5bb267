//! What a search asks for, and which entries answer it.

use vstd::prelude::*;
use crate::error::Feature;
use crate::error::HistoryError;
use crate::ident::HistoryItemId;
use crate::store::position;
use crate::store::Entries;
use crate::text::is_prefix;
use crate::text::is_substring;

verus! {

/// The order in which a search hands out its entries.
#[derive(Debug, Clone, Copy, PartialEq, Eq, Structural)]
pub enum SearchDirection {
    /// Newest first.
    Backward,
    /// Oldest first.
    Forward,
}

/// How the text of an entry is held against a pattern.
#[derive(Debug, Clone, PartialEq, Eq)]
pub enum CommandLineSearch {
    /// The text begins with the pattern.
    Prefix(String),
    /// The text holds the pattern.
    Substring(String),
    /// The text is the pattern.
    Exact(String),
}

/// Which entries a search lets through.
#[derive(Debug, Clone, PartialEq, Eq)]
pub struct SearchFilter {
    /// What the text has to look like.
    pub command_line: Option<CommandLineSearch>,
    /// A text that is left out.
    pub not_command_line: Option<String>,
    /// The host on which the command was run.
    pub hostname: Option<String>,
    /// The working directory, in full.
    pub cwd_exact: Option<String>,
    /// The beginning of the working directory.
    pub cwd_prefix: Option<String>,
    /// Whether the command ended well.
    pub exit_successful: Option<bool>,
}

/// A search: its direction, its bounds and its filter.
#[derive(Debug, Clone, PartialEq, Eq)]
pub struct SearchQuery {
    /// The order of the entries handed out.
    pub direction: SearchDirection,
    /// Only entries made after this time.
    pub start_time: Option<i64>,
    /// Only entries made before this time.
    pub end_time: Option<i64>,
    /// The entry at which the search starts.
    pub start_id: Option<HistoryItemId>,
    /// The entry at which the search ends.
    pub end_id: Option<HistoryItemId>,
    /// At most this many entries; a negative number sets no bound.
    pub limit: Option<i64>,
    /// Which entries are let through.
    pub filter: SearchFilter,
}

impl SearchFilter {
    /// A filter that lets every entry through.
    pub fn anything() -> (filter: Self)
        ensures
            filter.command_line is None,
            filter.not_command_line is None,
            filter.hostname is None,
            filter.cwd_exact is None,
            filter.cwd_prefix is None,
            filter.exit_successful is None,
    {
        SearchFilter {
            command_line: None,
            not_command_line: None,
            hostname: None,
            cwd_exact: None,
            cwd_prefix: None,
            exit_successful: None,
        }
    }

    /// A filter that lets through the entries whose text looks as `search`
    /// asks.
    pub fn from_text_search(search: CommandLineSearch) -> (filter: Self)
        ensures
            filter.command_line == Some(search),
            filter.not_command_line is None,
            filter.hostname is None,
            filter.cwd_exact is None,
            filter.cwd_prefix is None,
            filter.exit_successful is None,
    {
        SearchFilter {
            command_line: Some(search),
            not_command_line: None,
            hostname: None,
            cwd_exact: None,
            cwd_prefix: None,
            exit_successful: None,
        }
    }
}

impl SearchQuery {
    /// A search for all entries that pass `filter`, without bounds.
    pub fn filtered_by(filter: SearchFilter, direction: SearchDirection) -> (query: Self)
        ensures
            query.direction == direction,
            query.start_time is None,
            query.end_time is None,
            query.start_id is None,
            query.end_id is None,
            query.limit is None,
            query.filter == filter,
    {
        SearchQuery {
            direction,
            start_time: None,
            end_time: None,
            start_id: None,
            end_id: None,
            limit: None,
            filter,
        }
    }

    /// A search for every entry.
    pub fn everything(direction: SearchDirection) -> (query: Self)
        ensures
            query.direction == direction,
            query.start_time is None,
            query.end_time is None,
            query.start_id is None,
            query.end_id is None,
            query.limit is None,
            query.filter.command_line is None,
            query.filter.not_command_line is None,
            unsupported(query) is None,
    {
        Self::filtered_by(SearchFilter::anything(), direction)
    }
}

/// The text `cmd` looks as `search` asks.
pub open spec fn command_line_matches(search: Option<CommandLineSearch>, cmd: Seq<char>) -> bool {
    match search {
        None => true,
        Some(CommandLineSearch::Prefix(p)) => is_prefix(cmd, p@),
        Some(CommandLineSearch::Substring(p)) => is_substring(cmd, p@),
        Some(CommandLineSearch::Exact(p)) => cmd == p@,
    }
}

/// The filter lets the text `cmd` through.
pub open spec fn passes(filter: SearchFilter, cmd: Seq<char>) -> bool {
    &&& command_line_matches(filter.command_line, cmd)
    &&& match filter.not_command_line {
        Some(excluded) => cmd != excluded@,
        None => true,
    }
}

/// What the query asks for that a history of texts alone cannot tell: time
/// comes first, then the other data.
pub open spec fn unsupported(query: SearchQuery) -> Option<Feature> {
    if query.start_time is Some || query.end_time is Some {
        Some(Feature::FilterByTime)
    } else if query.filter.hostname is Some || query.filter.cwd_exact is Some
        || query.filter.cwd_prefix is Some || query.filter.exit_successful is Some {
        Some(Feature::FilterByExtraInfo)
    } else {
        None
    }
}

/// The identifier that bounds the search on the side of the oldest entries: a
/// backward search ends there, a forward one starts there.
pub open spec fn lower_id(query: SearchQuery) -> Option<HistoryItemId> {
    if query.direction == SearchDirection::Backward {
        query.end_id
    } else {
        query.start_id
    }
}

/// The identifier that bounds the search on the side of the newest entries.
pub open spec fn upper_id(query: SearchQuery) -> Option<HistoryItemId> {
    if query.direction == SearchDirection::Backward {
        query.start_id
    } else {
        query.end_id
    }
}

/// The position of the oldest entry searched: that of the lower identifier, or
/// the first; nothing where the identifier names no entry.
pub open spec fn lower_position(entries: Entries, query: SearchQuery) -> Option<int> {
    match lower_id(query) {
        Some(id) => position(entries, id.0),
        None => Some(0),
    }
}

/// The position of the newest entry searched: that of the upper identifier, or
/// the last; nothing where the identifier names no entry.
pub open spec fn upper_position(entries: Entries, query: SearchQuery) -> Option<int> {
    match upper_id(query) {
        Some(id) => position(entries, id.0),
        None => Some(if entries.len() == 0 { 0 } else { entries.len() - 1 }),
    }
}

/// Where the query can be answered at all, its lower bound does not lie behind
/// its upper bound.
pub open spec fn bounds_ordered(entries: Entries, query: SearchQuery) -> bool {
    unsupported(query) is None ==> match (
        lower_position(entries, query),
        upper_position(entries, query),
    ) {
        (Some(lower), Some(upper)) => lower <= upper,
        _ => true,
    }
}

/// The entries between the positions `lower` and `upper`, both included.
pub open spec fn window(entries: Entries, lower: int, upper: int) -> Entries {
    if entries.len() == 0 {
        entries
    } else {
        entries.subrange(lower, upper + 1)
    }
}

/// `part` in the order of the search.
pub open spec fn in_direction(direction: SearchDirection, part: Entries) -> Entries {
    if direction == SearchDirection::Backward {
        part.reverse()
    } else {
        part
    }
}

/// The entries of `part` that the filter lets through.
pub open spec fn filtered(filter: SearchFilter, part: Entries) -> Entries {
    part.filter(|e: (i64, Seq<char>)| passes(filter, e.1))
}

/// How many of `n` entries the limit leaves.
pub open spec fn limited(limit: Option<i64>, n: nat) -> nat {
    match limit {
        Some(most) => if 0 <= most < n { most as nat } else { n },
        None => n,
    }
}

/// What a search of `entries` gives: the first failure in the order time
/// filter, other filters, lower bound, upper bound; else the entries between
/// the bounds that pass the filter, in the order of the search, as many as the
/// limit leaves.
pub open spec fn search_result(entries: Entries, query: SearchQuery) -> Result<
    Entries,
    HistoryError,
> {
    if let Some(feature) = unsupported(query) {
        Err(HistoryError::FeatureUnsupported(feature))
    } else if lower_position(entries, query) is None {
        Err(HistoryError::StartIdNotFound)
    } else if upper_position(entries, query) is None {
        Err(HistoryError::EndIdNotFound)
    } else {
        let part = window(
            entries,
            lower_position(entries, query).unwrap(),
            upper_position(entries, query).unwrap(),
        );
        let hits = filtered(query.filter, in_direction(query.direction, part));
        Ok(hits.take(limited(query.limit, hits.len()) as int))
    }
}

} // verus!
