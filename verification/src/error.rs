//! What a history refuses, and why.

use vstd::prelude::*;

verus! {

/// What this kind of history cannot do.
#[derive(Debug, Clone, Copy, PartialEq, Eq, Structural)]
pub enum Feature {
    /// Searching by the time at which an entry was made.
    FilterByTime,
    /// Searching by host, working directory or exit status.
    FilterByExtraInfo,
    /// Changing an entry that is stored.
    UpdatingEntries,
    /// Taking a single entry out.
    RemovingEntries,
}

/// Why an operation on a history failed.
#[derive(Debug, Clone, Copy, PartialEq, Eq, Structural)]
pub enum HistoryError {
    /// The capacity asked for is the largest `usize`, which positions cannot
    /// address safely.
    CapacityTooLarge,
    /// No entry goes by the identifier.
    ItemNotFound,
    /// The identifier that bounds a search from below names no entry.
    StartIdNotFound,
    /// The identifier that bounds a search from above names no entry.
    EndIdNotFound,
    /// The history has no data to do this with.
    FeatureUnsupported(Feature),
}

impl Feature {
    /// The feature in words.
    pub open spec fn name_text(self) -> Seq<char> {
        match self {
            Feature::FilterByTime => "filtering by time"@,
            Feature::FilterByExtraInfo => "filtering by extra info"@,
            Feature::UpdatingEntries => "updating entries"@,
            Feature::RemovingEntries => "removing entries"@,
        }
    }

    /// The feature in words.
    pub fn name(self) -> (text: &'static str)
        ensures
            text@ == self.name_text(),
    {
        match self {
            Feature::FilterByTime => "filtering by time",
            Feature::FilterByExtraInfo => "filtering by extra info",
            Feature::UpdatingEntries => "updating entries",
            Feature::RemovingEntries => "removing entries",
        }
    }
}

impl HistoryError {
    /// The error in words.
    pub open spec fn message_text(self) -> Seq<char> {
        match self {
            HistoryError::CapacityTooLarge => "History capacity too large to be addressed safely"@,
            HistoryError::ItemNotFound => "Item does not exist"@,
            HistoryError::StartIdNotFound => "provided 'start_id' item was not found"@,
            HistoryError::EndIdNotFound => "provided 'end_id' item was not found"@,
            HistoryError::FeatureUnsupported(feature) => feature.name_text(),
        }
    }

    /// The error in words.
    pub fn message(self) -> (text: &'static str)
        ensures
            text@ == self.message_text(),
    {
        match self {
            HistoryError::CapacityTooLarge => "History capacity too large to be addressed safely",
            HistoryError::ItemNotFound => "Item does not exist",
            HistoryError::StartIdNotFound => "provided 'start_id' item was not found",
            HistoryError::EndIdNotFound => "provided 'end_id' item was not found",
            HistoryError::FeatureUnsupported(feature) => feature.name(),
        }
    }
}

} // verus!
