//! Searching a history and counting what a search finds.

use vstd::prelude::*;
use crate::error::HistoryError;
use crate::error::Feature;
use crate::history::FileBackedHistory;
use crate::ident::HistoryItemId;
use crate::item::HistoryItem;
use crate::query::bounds_ordered;
use crate::query::filtered;
use crate::query::in_direction;
use crate::query::lower_position;
use crate::query::passes;
use crate::query::search_result;
use crate::query::unsupported;
use crate::query::upper_position;
use crate::query::window;
use crate::query::CommandLineSearch;
use crate::query::SearchDirection;
use crate::query::SearchFilter;
use crate::query::SearchQuery;
use crate::store::Entries;
use crate::text::chars_of;
use crate::text::has_prefix;
use crate::text::has_substring;

verus! {

/// The records `items` stand for the entries `hits`, one for one, and hold
/// nothing beside identifier and text.
pub open spec fn answers(items: Seq<HistoryItem>, hits: Entries) -> bool {
    &&& items.len() == hits.len()
    &&& forall|i: int| 0 <= i < hits.len() ==> (#[trigger] items[i]).is_bare(hits[i].0, hits[i].1)
}

/// The pattern that the filter holds texts against; empty where it has none.
pub open spec fn pattern_of(search: Option<CommandLineSearch>) -> Seq<char> {
    match search {
        None => Seq::empty(),
        Some(CommandLineSearch::Prefix(p)) => p@,
        Some(CommandLineSearch::Substring(p)) => p@,
        Some(CommandLineSearch::Exact(p)) => p@,
    }
}

/// What the query asks for that a history of texts cannot tell, if anything.
pub fn find_unsupported(query: &SearchQuery) -> (found: Option<Feature>)
    ensures
        found == unsupported(*query),
{
    if query.start_time.is_some() || query.end_time.is_some() {
        Some(Feature::FilterByTime)
    } else if query.filter.hostname.is_some() || query.filter.cwd_exact.is_some()
        || query.filter.cwd_prefix.is_some() || query.filter.exit_successful.is_some() {
        Some(Feature::FilterByExtraInfo)
    } else {
        None
    }
}

/// The most entries that a search with this limit hands out; the largest
/// `usize` where the limit sets no bound.
pub fn most_of(limit: Option<i64>) -> (most: usize)
    ensures
        match limit {
            Some(l) => if 0 <= l <= usize::MAX {
                most == l
            } else {
                most == usize::MAX
            },
            None => most == usize::MAX,
        },
{
    match limit {
        Some(l) => if l >= 0 && l as u64 <= usize::MAX as u64 {
            l as usize
        } else {
            usize::MAX
        },
        None => usize::MAX,
    }
}

/// The characters of the filter's pattern.
fn pattern_chars(search: &Option<CommandLineSearch>) -> (needle: Vec<char>)
    ensures
        needle@ == pattern_of(*search),
{
    match search {
        None => Vec::new(),
        Some(CommandLineSearch::Prefix(p)) => chars_of(p.as_str()),
        Some(CommandLineSearch::Substring(p)) => chars_of(p.as_str()),
        Some(CommandLineSearch::Exact(p)) => chars_of(p.as_str()),
    }
}

/// Whether the filter lets the text `cmd` through; `needle` holds the
/// characters of the filter's pattern.
fn lets_through(filter: &SearchFilter, needle: &Vec<char>, cmd: &String) -> (ok: bool)
    requires
        needle@ == pattern_of(filter.command_line),
    ensures
        ok == passes(*filter, cmd@),
{
    let fits = match &filter.command_line {
        None => true,
        Some(CommandLineSearch::Prefix(_)) => {
            let text = chars_of(cmd.as_str());
            has_prefix(&text, needle)
        },
        Some(CommandLineSearch::Substring(_)) => {
            let text = chars_of(cmd.as_str());
            has_substring(&text, needle)
        },
        Some(CommandLineSearch::Exact(p)) => *cmd == *p,
    };
    if !fits {
        return false;
    }
    match &filter.not_command_line {
        Some(excluded) => !(*cmd == *excluded),
        None => true,
    }
}

/// One more entry: what passes the filter among `part` and `entry` is what
/// passes among `part`, and `entry` behind it if it passes.
proof fn lemma_filtered_push(filter: SearchFilter, part: Entries, entry: (i64, Seq<char>))
    ensures
        filtered(filter, part.push(entry)) == if passes(filter, entry.1) {
            filtered(filter, part).push(entry)
        } else {
            filtered(filter, part)
        },
{
    part.lemma_filter_push(entry, |e: (i64, Seq<char>)| passes(filter, e.1));
}

/// What passes among the first `k` of `part` stands at the head of what
/// passes among all of `part`.
proof fn lemma_filtered_take(filter: SearchFilter, part: Entries, k: int)
    requires
        0 <= k <= part.len(),
    ensures
        filtered(filter, part) == filtered(filter, part.take(k)) + filtered(filter, part.skip(k)),
{
    assert(part =~= part.take(k) + part.skip(k));
    Seq::filter_distributes_over_add(
        part.take(k),
        part.skip(k),
        |e: (i64, Seq<char>)| passes(filter, e.1),
    );
}

impl FileBackedHistory {
    /// The positions of the oldest and of the newest entry that `query`
    /// searches, or the reason for which it cannot be answered.
    pub fn resolve_bounds(&self, query: &SearchQuery) -> (bounds: Result<
        (usize, usize),
        HistoryError,
    >)
        ensures
            match bounds {
                Ok((lower, upper)) => {
                    &&& unsupported(*query) is None
                    &&& lower_position(self@.entries, *query) == Some(lower as int)
                    &&& upper_position(self@.entries, *query) == Some(upper as int)
                    &&& search_result(self@.entries, *query) is Ok
                    &&& self@.entries.len() > 0 ==> lower < self@.entries.len() && upper
                        < self@.entries.len()
                },
                Err(error) => search_result(self@.entries, *query) == Err::<Entries, HistoryError>(
                    error,
                ),
            },
    {
        proof {
            self.lemma_view();
        }
        match find_unsupported(query) {
            Some(feature) => {
                return Err(HistoryError::FeatureUnsupported(feature));
            },
            None => {},
        }
        let (lower_id, upper_id) = match query.direction {
            SearchDirection::Backward => (query.end_id, query.start_id),
            SearchDirection::Forward => (query.start_id, query.end_id),
        };
        let lower: usize = match lower_id {
            Some(id) => match self.ledger.entries.lookup_position(id.0) {
                Some(p) => p,
                None => {
                    return Err(HistoryError::StartIdNotFound);
                },
            },
            None => 0,
        };
        let len: usize = self.ledger.entries.len();
        let upper: usize = match upper_id {
            Some(id) => match self.ledger.entries.lookup_position(id.0) {
                Some(p) => p,
                None => {
                    return Err(HistoryError::EndIdNotFound);
                },
            },
            None => if len == 0 {
                0
            } else {
                len - 1
            },
        };
        Ok((lower, upper))
    }

    /// Whether `query` may be handed to [`FileBackedHistory::search`]: where
    /// both bounds name entries, the lower one does not lie behind the upper.
    pub fn bounds_in_order(&self, query: &SearchQuery) -> (ok: bool)
        ensures
            ok == bounds_ordered(self@.entries, *query),
    {
        match self.resolve_bounds(query) {
            Ok((lower, upper)) => lower <= upper,
            Err(_) => true,
        }
    }

    /// The entries that answer `query`, as records of identifier and text.
    pub fn search(&self, query: SearchQuery) -> (found: Result<Vec<HistoryItem>, HistoryError>)
        requires
            bounds_ordered(self@.entries, query),
        ensures
            match found {
                Ok(items) => search_result(self@.entries, query) matches Ok(hits) && answers(
                    items@,
                    hits,
                ),
                Err(error) => search_result(self@.entries, query) == Err::<Entries, HistoryError>(
                    error,
                ),
            },
    {
        let (lower, upper) = match self.resolve_bounds(&query) {
            Ok(bounds) => bounds,
            Err(error) => {
                return Err(error);
            },
        };
        let len: usize = self.ledger.entries.len();
        proof {
            use_type_invariant(&self.ledger);
            self.lemma_view();
        }
        let backward = match query.direction {
            SearchDirection::Backward => true,
            SearchDirection::Forward => false,
        };
        let n: usize = if len == 0 {
            0
        } else {
            upper - lower + 1
        };
        let most: usize = most_of(query.limit);
        let needle = pattern_chars(&query.filter.command_line);
        let ghost part = window(self@.entries, lower as int, upper as int);
        let ghost ordered = in_direction(query.direction, part);
        let mut items: Vec<HistoryItem> = Vec::new();
        let mut k: usize = 0;
        while k < n && items.len() < most
            invariant
                self.wf(),
                k <= n,
                n == ordered.len(),
                n == part.len(),
                len == self@.entries.len(),
                self.ledger.entries@ == self@.entries,
                n > 0 ==> lower <= upper < len && n == upper - lower + 1,
                part == window(self@.entries, lower as int, upper as int),
                ordered == in_direction(query.direction, part),
                backward == (query.direction == SearchDirection::Backward),
                needle@ == pattern_of(query.filter.command_line),
                items.len() <= most,
                items.len() <= k,
                answers(items@, filtered(query.filter, ordered.take(k as int))),
            decreases n - k,
        {
            let index: usize = if backward {
                upper - k
            } else {
                lower + k
            };
            let ghost seen = ordered.take(k as int);
            proof {
                assert(ordered.take(k + 1) =~= seen.push(ordered[k as int]));
                lemma_filtered_push(query.filter, seen, ordered[k as int]);
            }
            match self.ledger.entries.entry_at(index) {
                Some(pair) => {
                    if lets_through(&query.filter, &needle, pair.1) {
                        let item = Self::construct_entry(HistoryItemId(pair.0), pair.1.clone());
                        items.push(item);
                    }
                },
                None => {},
            }
            k = k + 1;
        }
        proof {
            lemma_filtered_take(query.filter, ordered, k as int);
        }
        Ok(items)
    }

    /// How many entries answer `query`.
    pub fn count(&self, query: SearchQuery) -> (counted: Result<u64, HistoryError>)
        requires
            bounds_ordered(self@.entries, query),
        ensures
            match counted {
                Ok(n) => search_result(self@.entries, query) matches Ok(hits) && n == hits.len(),
                Err(error) => search_result(self@.entries, query) == Err::<Entries, HistoryError>(
                    error,
                ),
            },
    {
        match self.search(query) {
            Ok(items) => Ok(items.len() as u64),
            Err(error) => Err(error),
        }
    }
}

} // verus!
