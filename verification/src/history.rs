//! The history itself: a store of entries bounded by a capacity, with the
//! marker of what was last written to its file.

use vstd::prelude::*;
use rand::rngs::SmallRng;
use std::path::PathBuf;
use crate::error::Feature;
use crate::error::HistoryError;
use crate::ident::next_number;
use crate::ident::seeded_rng;
use crate::ident::HistoryItemId;
use crate::ident::HistorySessionId;
use crate::item::HistoryItem;
use crate::store::has_key;
use crate::store::inserted;
use crate::store::keys_distinct;
use crate::store::lemma_inserted;
use crate::store::position_of;
use crate::store::Entries;
use crate::store::OrderedStore;

verus! {

/// The capacity of a history made by `default`.
pub const HISTORY_SIZE: usize = 1000;

/// `std::path::PathBuf`: a path that is carried along and never looked into.
#[verifier::external_type_specification]
#[verifier::external_body]
pub struct ExPathBuf(PathBuf);

/// What a history is, to its contracts.
pub struct HistoryState {
    /// The most entries that are kept.
    pub capacity: usize,
    /// The entries, oldest first.
    pub entries: Entries,
    /// The identifier of the entry that was last written to the file.
    pub marker: Option<i64>,
    /// The file that the history is kept in, if any.
    pub file: Option<PathBuf>,
    /// The label of the session.
    pub session: Option<HistorySessionId>,
}

impl HistoryState {
    /// The capacity can be addressed, it bounds the entries, no identifier
    /// occurs twice, and only a history with a file has a marker.
    pub open spec fn valid(self) -> bool {
        &&& self.capacity < usize::MAX
        &&& self.entries.len() <= self.capacity
        &&& keys_distinct(self.entries)
        &&& self.file is None ==> self.marker is None
    }

    /// A history without entries.
    pub open spec fn empty(capacity: usize, file: Option<PathBuf>) -> HistoryState {
        HistoryState { capacity, entries: Entries::empty(), marker: None, file, session: None }
    }

    /// Saving `text` changes nothing: the text is empty, nothing is kept at
    /// all, or the newest entry has this text already.
    pub open spec fn save_skips(self, text: Seq<char>) -> bool {
        ||| text.len() == 0
        ||| self.capacity == 0
        ||| (self.entries.len() > 0 && self.entries.last().1 == text)
    }

    /// The history after `text` was saved under `id`: unless the save is
    /// skipped, a full history gives up its oldest entry, and the new entry is
    /// inserted.
    pub open spec fn saved(self, id: i64, text: Seq<char>) -> HistoryState {
        if self.save_skips(text) {
            self
        } else {
            let room = if self.entries.len() >= self.capacity {
                self.entries.skip(1)
            } else {
                self.entries
            };
            HistoryState { entries: inserted(room, id, text), ..self }
        }
    }

    /// The history after it was cleared.
    pub open spec fn cleared(self) -> HistoryState {
        HistoryState { entries: Entries::empty(), marker: None, ..self }
    }
}

/// The entries of a history with what bounds them and ties them to a file.
#[derive(Debug)]
pub(crate) struct Ledger {
    pub(crate) capacity: usize,
    pub(crate) entries: OrderedStore,
    pub(crate) file: Option<PathBuf>,
    pub(crate) last_on_disk: Option<HistoryItemId>,
    pub(crate) session: Option<HistorySessionId>,
}

impl Ledger {
    /// What the ledger holds, as the state of a history.
    pub(crate) open spec fn state(&self) -> HistoryState {
        HistoryState {
            capacity: self.capacity,
            entries: self.entries@,
            marker: match self.last_on_disk {
                Some(id) => Some(id.0),
                None => None,
            },
            file: self.file,
            session: self.session,
        }
    }

    /// The state is valid. This holds of every ledger.
    #[verifier::type_invariant]
    pub(crate) open spec fn inv(&self) -> bool {
        self.state().valid()
    }

    /// An empty ledger for `capacity` entries.
    fn new(capacity: usize, file: Option<PathBuf>) -> (ledger: Self)
        requires
            capacity < usize::MAX,
        ensures
            ledger.state() == HistoryState::empty(capacity, file),
    {
        Ledger { capacity, entries: OrderedStore::new(), file, last_on_disk: None, session: None }
    }
}

/// A history of command lines that keeps at most `capacity` entries and gives
/// up the oldest for a new one. It may be tied to a file that it shares with
/// other histories.
#[derive(Debug)]
pub struct FileBackedHistory {
    pub(crate) ledger: Ledger,
    pub(crate) rng: SmallRng,
}

impl View for FileBackedHistory {
    type V = HistoryState;

    closed spec fn view(&self) -> HistoryState {
        self.ledger.state()
    }
}

impl Default for FileBackedHistory {
    /// A history in memory that keeps [`HISTORY_SIZE`] entries.
    fn default() -> (history: Self)
        ensures
            history.wf(),
            history@ == HistoryState::empty(HISTORY_SIZE, None),
    {
        FileBackedHistory { ledger: Ledger::new(HISTORY_SIZE, None), rng: seeded_rng() }
    }
}

impl FileBackedHistory {
    /// The state of the history is valid. This holds of every history.
    pub open spec fn wf(&self) -> bool {
        self@.valid()
    }

    /// The state of the history, part by part, and that it is valid where the
    /// ledger is as every ledger is.
    pub(crate) proof fn lemma_view(&self)
        ensures
            self@.capacity == self.ledger.capacity,
            self@.entries == self.ledger.entries@,
            self@.marker == match self.ledger.last_on_disk {
                Some(id) => Some(id.0),
                None => None,
            },
            self@.file == self.ledger.file,
            self@.session == self.ledger.session,
            self.ledger.inv() ==> self.wf(),
    {
    }

    /// A history in memory that keeps `capacity` entries. The largest `usize`
    /// is no capacity.
    pub fn new(capacity: usize) -> (made: Result<Self, HistoryError>)
        ensures
            match made {
                Ok(history) => capacity < usize::MAX && history.wf() && history@
                    == HistoryState::empty(capacity, None),
                Err(error) => capacity == usize::MAX && error == HistoryError::CapacityTooLarge,
            },
    {
        if capacity == usize::MAX {
            return Err(HistoryError::CapacityTooLarge);
        }
        Ok(FileBackedHistory { ledger: Ledger::new(capacity, None), rng: seeded_rng() })
    }

    /// A history that keeps `capacity` entries and is tied to `file`. It starts
    /// empty: what the file holds comes in with the first synchronisation.
    pub fn with_file(capacity: usize, file: PathBuf) -> (made: Result<Self, HistoryError>)
        ensures
            match made {
                Ok(history) => capacity < usize::MAX && history.wf() && history@
                    == HistoryState::empty(capacity, Some(file)),
                Err(error) => capacity == usize::MAX && error == HistoryError::CapacityTooLarge,
            },
    {
        match Self::new(capacity) {
            Ok(history) => {
                let mut history = history;
                history.ledger.file = Some(file);
                Ok(history)
            },
            Err(error) => Err(error),
        }
    }

    /// The record of an entry of which only identifier and text are known.
    pub fn construct_entry(id: HistoryItemId, command_line: String) -> (item: HistoryItem)
        ensures
            item.is_bare(id.0, command_line@),
    {
        HistoryItem {
            id,
            start_timestamp: None,
            command_line,
            session_id: None,
            hostname: None,
            cwd: None,
            duration: None,
            exit_status: None,
        }
    }

    /// An identifier for a new entry, drawn at random. The history stays as it
    /// is.
    pub fn generate_id(&mut self) -> (id: HistoryItemId)
        ensures
            final(self)@ == old(self)@,
    {
        HistoryItemId::new(next_number(&mut self.rng))
    }

    /// Saves the text of `h` under the identifier of `h`. Nothing happens where
    /// the text is empty, the capacity is zero or the newest entry has the
    /// same text. A full history gives up its oldest entry first.
    pub fn save(&mut self, h: &HistoryItem) -> (done: Result<(), HistoryError>)
        ensures
            final(self).wf(),
            done is Ok,
            final(self)@ == old(self)@.saved(h.id.0, h.command_line@),
    {
        proof {
            use_type_invariant(&self.ledger);
        }
        let len: usize = self.ledger.entries.len();
        let repeats = if len > 0 {
            match self.ledger.entries.entry_at(len - 1) {
                Some(pair) => *pair.1 == h.command_line,
                None => false,
            }
        } else {
            false
        };
        if !repeats && !h.command_line.as_str().is_empty() && self.ledger.capacity > 0 {
            // The store is taken out while it changes and put back when it
            // fits the ledger again.
            let mut entries = OrderedStore::new();
            std::mem::swap(&mut entries, &mut self.ledger.entries);
            if len >= self.ledger.capacity {
                entries.evict_oldest();
            }
            entries.insert(h.id.0, h.command_line.clone());
            self.ledger.entries = entries;
        }
        Ok(())
    }

    /// The same as [`FileBackedHistory::save`]: no entry is changed in place.
    pub fn replace(&mut self, h: &HistoryItem) -> (done: Result<(), HistoryError>)
        ensures
            final(self).wf(),
            done is Ok,
            final(self)@ == old(self)@.saved(h.id.0, h.command_line@),
    {
        self.save(h)
    }

    /// The entry that goes by `id`, as a record of identifier and text.
    pub fn load(&self, id: HistoryItemId) -> (loaded: Result<HistoryItem, HistoryError>)
        ensures
            match loaded {
                Ok(item) => has_key(self@.entries, id.0) && item.is_bare(
                    id.0,
                    self@.entries[position_of(self@.entries, id.0)].1,
                ),
                Err(error) => !has_key(self@.entries, id.0) && error == HistoryError::ItemNotFound,
            },
    {
        match self.ledger.entries.lookup_position(id.0) {
            Some(p) => match self.ledger.entries.entry_at(p) {
                Some(pair) => Ok(Self::construct_entry(id, pair.1.clone())),
                None => Err(HistoryError::ItemNotFound),
            },
            None => Err(HistoryError::ItemNotFound),
        }
    }

    /// Always refused: an entry that is stored is never changed.
    pub fn update<F: Fn(HistoryItem) -> HistoryItem>(
        &mut self,
        _id: HistoryItemId,
        _updater: &F,
    ) -> (done: Result<(), HistoryError>)
        ensures
            done == Err::<(), HistoryError>(
                HistoryError::FeatureUnsupported(Feature::UpdatingEntries),
            ),
            *final(self) == *old(self),
    {
        Err(HistoryError::FeatureUnsupported(Feature::UpdatingEntries))
    }

    /// Always refused: a single entry is never taken out.
    pub fn delete(&mut self, _h: HistoryItemId) -> (done: Result<(), HistoryError>)
        ensures
            done == Err::<(), HistoryError>(
                HistoryError::FeatureUnsupported(Feature::RemovingEntries),
            ),
            *final(self) == *old(self),
    {
        Err(HistoryError::FeatureUnsupported(Feature::RemovingEntries))
    }

    /// Forgets every entry and the marker. The file, if there is one, is the
    /// caller's to remove.
    pub fn clear(&mut self)
        ensures
            final(self).wf(),
            final(self)@ == old(self)@.cleared(),
    {
        proof {
            use_type_invariant(&self.ledger);
        }
        let mut entries = OrderedStore::new();
        std::mem::swap(&mut entries, &mut self.ledger.entries);
        entries.clear();
        self.ledger.entries = entries;
        self.ledger.last_on_disk = None;
    }

    /// The label of the session.
    pub fn session(&self) -> (label: Option<HistorySessionId>)
        ensures
            label == self@.session,
    {
        self.ledger.session
    }

    /// The most entries that are kept.
    pub fn capacity(&self) -> (capacity: usize)
        ensures
            capacity == self@.capacity,
            self.wf(),
    {
        proof {
            use_type_invariant(&self.ledger);
        }
        self.ledger.capacity
    }

    /// The number of entries, which is never more than the capacity.
    pub fn len(&self) -> (n: usize)
        ensures
            n == self@.entries.len(),
            self.wf(),
    {
        proof {
            use_type_invariant(&self.ledger);
        }
        self.ledger.entries.len()
    }

    /// The file that the history is tied to, if any.
    pub fn file(&self) -> (file: Option<&PathBuf>)
        ensures
            match file {
                Some(path) => self@.file == Some(*path),
                None => self@.file is None,
            },
    {
        self.ledger.file.as_ref()
    }

    /// The identifier of the entry that was last written to the file.
    pub fn sync_marker(&self) -> (marker: Option<HistoryItemId>)
        ensures
            match marker {
                Some(id) => self@.marker == Some(id.0),
                None => self@.marker is None,
            },
    {
        self.ledger.last_on_disk
    }
}

/// Saving the same item a second time changes nothing.
pub proof fn lemma_save_twice(h: HistoryState, id: i64, text: Seq<char>)
    requires
        h.valid(),
    ensures
        h.saved(id, text).saved(id, text) == h.saved(id, text),
{
    let once = h.saved(id, text);
    if !h.save_skips(text) {
        let room = if h.entries.len() >= h.capacity {
            h.entries.skip(1)
        } else {
            h.entries
        };
        lemma_inserted(room, id, text);
        if !once.save_skips(text) && has_key(room, id) {
            assert(once.entries.update(position_of(once.entries, id), (id, text))
                =~= once.entries);
        }
    }
}

/// Saving a text under an identifier that is not in use, and then the same text
/// again under any identifier, leaves one entry for it: the second save
/// changes nothing.
pub proof fn lemma_save_repeated_text(h: HistoryState, id: i64, again: i64, text: Seq<char>)
    requires
        h.valid(),
        !has_key(h.entries, id),
    ensures
        h.saved(id, text).saved(again, text) == h.saved(id, text),
{
    if !h.save_skips(text) && h.entries.len() >= h.capacity {
        let room = h.entries.skip(1);
        if has_key(room, id) {
            assert(h.entries[position_of(room, id) + 1].0 == id);
        }
    }
}

/// A save of the empty text changes nothing.
pub proof fn lemma_save_empty(h: HistoryState, id: i64)
    ensures
        h.saved(id, Seq::empty()) == h,
{
}

} // verus!
