//! Reconciling a history with the file it shares: what is read from the file,
//! what is written back, and what the history holds afterwards.
//!
//! The caller opens and locks the file, reads its text and hands the lines of
//! it to [`read_entries`]. [`FileBackedHistory::plan_sync`] then says what to
//! write, and once that is written [`FileBackedHistory::finish_sync`] takes
//! the outcome over. A caller that fails in between leaves the history
//! untouched.

use vstd::prelude::*;
use crate::codec::decode_entry;
use crate::codec::decode_text;
use crate::codec::encode_entry;
use crate::codec::encode_text;
use crate::codec::lemma_decode_encode;
use crate::codec::lemma_encode_decode;
use crate::codec::lemma_encoded_last;
use crate::codec::lemma_encoded_one_line;
use crate::codec::line_id;
use crate::codec::newline_escape;
use crate::history::FileBackedHistory;
use crate::history::HistoryState;
use crate::ident::HistoryItemId;
use crate::lines::file_lines;
use crate::lines::file_text;
use crate::lines::is_plain_line;
use crate::lines::join_lines;
use crate::lines::lemma_file_text_add;
use crate::lines::lemma_lines_are_one_line;
use crate::lines::lemma_lines_of_text;
use crate::lines::without_cr;
use crate::store::extended;
use crate::store::keys_distinct;
use crate::store::lemma_extended;
use crate::store::lemma_extended_fresh;
use crate::store::lemma_subrange_distinct;
use crate::store::position;
use crate::store::texts;
use crate::text::is_substring;
use crate::store::Entries;
use crate::store::OrderedStore;

verus! {

/// The position that the line at index `i` is read at: the index, as far as
/// an `i64` counts.
pub open spec fn line_counter(i: int) -> i64 {
    if i <= i64::MAX {
        i as i64
    } else {
        i64::MAX
    }
}

/// The entries that the lines stand for, one for one.
pub open spec fn decoded(lines: Seq<Seq<char>>) -> Entries {
    Seq::new(lines.len(), |i: int| (line_id(line_counter(i), lines[i]), decode_text(lines[i])))
}

/// The store that the lines of a file make: each line's entry inserted, from
/// the first line to the last.
pub open spec fn foreign_entries(lines: Seq<Seq<char>>) -> Entries {
    extended(Entries::empty(), decoded(lines))
}

/// Each text as it is written to a line.
pub open spec fn encoded(texts: Seq<Seq<char>>) -> Seq<Seq<char>> {
    texts.map_values(|text: Seq<char>| encode_text(text))
}

impl HistoryState {
    /// The position of the first entry that was not written yet: behind the
    /// marker's entry, or the very first without a marker. Where the marker's
    /// entry is gone, given up for newer ones, every entry came after it, and
    /// the position is the very first again.
    pub open spec fn pending_start(self) -> int {
        match self.marker {
            None => 0,
            Some(id) => match position(self.entries, id) {
                Some(p) => p + 1,
                None => 0,
            },
        }
    }

    /// The entries that were not written yet.
    pub open spec fn pending(self) -> Entries {
        self.entries.skip(self.pending_start())
    }

    /// The history has a file, and the file's entries and the pending ones
    /// are more than the capacity.
    pub open spec fn must_truncate(self, foreign: Entries) -> bool {
        self.file is Some && foreign.len() + self.pending().len() > self.capacity
    }

    /// The entries of the file that stay: all of them, or, where the capacity
    /// is exceeded, the newest that fit beside the pending ones.
    pub open spec fn retained(self, foreign: Entries) -> Entries {
        if self.must_truncate(foreign) {
            foreign.skip(foreign.len() + self.pending().len() - self.capacity)
        } else {
            foreign
        }
    }

    /// The lines to write: the pending entries, behind the retained ones where
    /// the file is rewritten. A history without file writes nothing.
    pub open spec fn lines_to_write(self, foreign: Entries) -> Seq<Seq<char>> {
        if self.file is None {
            Seq::empty()
        } else if self.must_truncate(foreign) {
            encoded(texts(self.retained(foreign))) + encoded(texts(self.pending()))
        } else {
            encoded(texts(self.pending()))
        }
    }

    /// The text of the file after the write: the lines written, behind the
    /// text that was there unless the file is rewritten.
    pub open spec fn text_after(self, text_before: Seq<char>, foreign: Entries) -> Seq<char> {
        if self.must_truncate(foreign) {
            file_text(self.lines_to_write(foreign))
        } else {
            text_before + file_text(self.lines_to_write(foreign))
        }
    }

    /// The entries after the synchronisation: the pending ones inserted into
    /// the retained ones.
    pub open spec fn merged(self, foreign: Entries) -> Entries {
        extended(self.retained(foreign), self.pending())
    }

    /// The history after the synchronisation: it holds the merged entries, and
    /// its marker names the newest of them. A history without file stays as it
    /// is.
    pub open spec fn synced(self, foreign: Entries) -> HistoryState {
        if self.file is None {
            self
        } else {
            let merged = self.merged(foreign);
            HistoryState {
                entries: merged,
                marker: if merged.len() == 0 {
                    None
                } else {
                    Some(merged.last().0)
                },
                ..self
            }
        }
    }
}

/// What a synchronisation writes.
#[derive(Debug)]
pub struct SyncPlan {
    /// Whether the file is rewritten from its start and cut behind the lines
    /// written. Otherwise the lines are appended.
    pub truncate: bool,
    /// The lines to write, each without its line break.
    pub lines: Vec<String>,
}

impl SyncPlan {
    /// The text to write: each line, followed by a line break.
    pub fn text(&self) -> (text: String)
        ensures
            text@ == file_text(self.lines.deep_view()),
    {
        join_lines(&self.lines)
    }
}

/// The store that the lines of a file make. The line at index `i` is read at
/// position `i`.
pub fn read_entries(lines: &Vec<String>) -> (foreign: OrderedStore)
    ensures
        foreign@ == foreign_entries(lines.deep_view()),
{
    let mut items: Vec<(i64, String)> = Vec::new();
    let mut counter: i64 = 0;
    let mut i: usize = 0;
    while i < lines.len()
        invariant
            i <= lines.len(),
            counter == line_counter(i as int),
            items.deep_view() == decoded(lines.deep_view()).take(i as int),
        decreases lines.len() - i,
    {
        let ghost before = items.deep_view();
        let (id, text) = decode_entry(lines[i].as_str(), &mut counter);
        items.push((id.0, text));
        assert(items.deep_view() =~= before.push(decoded(lines.deep_view())[i as int]));
        if counter < i64::MAX {
            counter = counter + 1;
        }
        i = i + 1;
    }
    assert(items.deep_view() =~= decoded(lines.deep_view()));
    OrderedStore::collect(items)
}

/// Appends to `lines` the line of each entry of `store` from position `from`
/// on.
fn encode_from(store: &OrderedStore, from: usize, lines: &mut Vec<String>)
    requires
        from <= store@.len(),
    ensures
        final(lines).deep_view() == old(lines).deep_view() + encoded(
            texts(store@.skip(from as int)),
        ),
{
    let ghost start = lines.deep_view();
    let ghost rest = encoded(texts(store@.skip(from as int)));
    let len: usize = store.len();
    let mut i: usize = from;
    while i < len
        invariant
            from <= i <= len,
            len == store@.len(),
            rest == encoded(texts(store@.skip(from as int))),
            lines.deep_view() == start + rest.take(i - from),
        decreases len - i,
    {
        let ghost before = lines.deep_view();
        match store.entry_at(i) {
            Some(pair) => {
                let line = encode_entry(pair.1.as_str());
                lines.push(line);
                assert(lines.deep_view() =~= before.push(rest[i - from]));
            },
            None => {},
        }
        i = i + 1;
    }
}

impl FileBackedHistory {
    /// The position of the first entry that was not written yet: behind the
    /// marker's entry, or the very first where there is no marker or its entry
    /// is gone.
    pub fn pending_start(&self) -> (start: usize)
        ensures
            start == self@.pending_start(),
            start <= self@.entries.len(),
    {
        proof {
            use_type_invariant(&self.ledger);
            self.lemma_view();
        }
        match self.ledger.last_on_disk {
            None => 0,
            Some(id) => match self.ledger.entries.lookup_position(id.0) {
                Some(p) => p + 1,
                None => 0,
            },
        }
    }

    /// What to write to the file that holds `foreign`: the pending entries,
    /// appended; or, where that would exceed the capacity, the file anew with
    /// the newest of its entries and the pending ones. A history without file
    /// writes nothing.
    pub fn plan_sync(&self, foreign: &OrderedStore) -> (plan: SyncPlan)
        ensures
            plan.truncate == self@.must_truncate(foreign@),
            plan.lines.deep_view() == self@.lines_to_write(foreign@),
    {
        proof {
            use_type_invariant(&self.ledger);
            self.lemma_view();
        }
        let mut lines: Vec<String> = Vec::new();
        if self.ledger.file.is_none() {
            return SyncPlan { truncate: false, lines };
        }
        let start: usize = self.pending_start();
        let own: usize = self.ledger.entries.len() - start;
        let room: usize = self.ledger.capacity - own;
        let theirs: usize = foreign.len();
        let truncate = theirs > room;
        if truncate {
            encode_from(foreign, theirs - room, &mut lines);
        }
        encode_from(&self.ledger.entries, start, &mut lines);
        SyncPlan { truncate, lines }
    }

    /// Takes over the outcome of a synchronisation with the file that held
    /// `foreign`: the history now holds the retained entries of the file and,
    /// inserted behind them, its pending ones; the marker names the newest. A
    /// history without file stays as it is.
    pub fn finish_sync(&mut self, foreign: OrderedStore)
        ensures
            final(self).wf(),
            final(self)@ == old(self)@.synced(foreign@),
    {
        proof {
            use_type_invariant(&self.ledger);
            use_type_invariant(&foreign);
            self.lemma_view();
        }
        if self.ledger.file.is_none() {
            return;
        }
        let start: usize = self.pending_start();
        let own: usize = self.ledger.entries.len() - start;
        let room: usize = self.ledger.capacity - own;
        let mut kept = foreign;
        if kept.len() > room {
            let cut: usize = kept.len() - room;
            let newest = kept.split_off(cut);
            kept = newest;
        }
        let mut entries = OrderedStore::new();
        std::mem::swap(&mut entries, &mut self.ledger.entries);
        let pending = entries.drain_from(start);
        proof {
            lemma_extended(kept@, pending.deep_view());
        }
        kept.extend(pending);
        let len: usize = kept.len();
        self.ledger.last_on_disk = if len == 0 {
            None
        } else {
            match kept.entry_at(len - 1) {
                Some(pair) => Some(HistoryItemId(pair.0)),
                None => None,
            }
        };
        self.ledger.entries = kept;
        proof {
            self.lemma_view();
        }
    }
}

/// Where the entries of the file and the pending ones exceed the capacity, the
/// file is rewritten and then holds exactly as many lines as the capacity: the
/// newest of all its entries and the pending ones.
pub proof fn lemma_sync_truncates(h: HistoryState, text_before: Seq<char>, foreign: Entries)
    requires
        h.valid(),
        h.file is Some,
        foreign.len() + h.pending().len() > h.capacity,
    ensures
        h.must_truncate(foreign),
        h.text_after(text_before, foreign) == file_text(h.lines_to_write(foreign)),
        h.lines_to_write(foreign).len() == h.capacity,
        h.lines_to_write(foreign) == encoded(texts(foreign + h.pending())).skip(
            foreign.len() + h.pending().len() - h.capacity,
        ),
{
}

/// Where no two lines of the file get the same identifier and the lines and
/// the pending entries exceed the capacity, the file afterwards holds exactly
/// as many lines as the capacity: the last of its lines and of those of the
/// pending entries.
pub proof fn lemma_sync_truncates_lines(h: HistoryState, text_before: Seq<char>)
    requires
        h.valid(),
        h.file is Some,
        keys_distinct(decoded(file_lines(text_before))),
        file_lines(text_before).len() + h.pending().len() > h.capacity,
    ensures
        foreign_entries(file_lines(text_before)) == decoded(file_lines(text_before)),
        h.text_after(text_before, foreign_entries(file_lines(text_before))) == file_text(
            (file_lines(text_before) + encoded(texts(h.pending()))).skip(
                file_lines(text_before).len() + h.pending().len() - h.capacity,
            ),
        ),
        (file_lines(text_before) + encoded(texts(h.pending()))).skip(
            file_lines(text_before).len() + h.pending().len() - h.capacity,
        ).len() == h.capacity,
{
    let lines = file_lines(text_before);
    let foreign = decoded(lines);
    lemma_extended_fresh(Entries::empty(), foreign);
    lemma_sync_truncates(h, text_before, foreign);
    lemma_lines_are_one_line(Seq::empty(), text_before);
    assert(encoded(texts(foreign)) =~= lines) by {
        assert forall|i: int| 0 <= i < lines.len() implies encoded(texts(foreign))[i]
            == lines[i] by {
            lemma_encode_decode(lines[i]);
        }
    }
    assert(encoded(texts(foreign + h.pending())) =~= lines + encoded(texts(h.pending())));
}

/// Where the entries of the file and the pending ones fit and share no
/// identifier, nothing is lost: the lines of the pending entries are appended
/// to the file, and the history holds the file's entries followed by the
/// pending ones.
pub proof fn lemma_sync_appends(h: HistoryState, lines_before: Seq<Seq<char>>, foreign: Entries)
    requires
        h.valid(),
        h.file is Some,
        foreign.len() + h.pending().len() <= h.capacity,
        keys_distinct(foreign + h.pending()),
    ensures
        h.text_after(file_text(lines_before), foreign) == file_text(
            lines_before + encoded(texts(h.pending())),
        ),
        h.synced(foreign).entries == foreign + h.pending(),
{
    lemma_extended_fresh(foreign, h.pending());
    lemma_file_text_add(lines_before, encoded(texts(h.pending())));
}

/// A history without marker, as one is after it was cleared, writes all its
/// entries to an empty file and keeps them as they are.
pub proof fn lemma_sync_after_clear(h: HistoryState)
    requires
        h.valid(),
        h.file is Some,
        h.marker is None,
    ensures
        h.text_after(Seq::empty(), Entries::empty()) == file_text(encoded(texts(h.entries))),
        h.synced(Entries::empty()).entries == h.entries,
{
    assert(h.entries.skip(0) =~= h.entries);
    lemma_extended_fresh(Entries::empty(), h.entries);
    assert(Seq::<char>::empty() + file_text(encoded(texts(h.entries))) =~= file_text(
        encoded(texts(h.entries)),
    ));
}

/// Texts that hold no escape and do not end with a carriage return come back
/// from the file as they went in: the lines written for them are read as
/// entries with these texts.
pub proof fn lemma_written_is_read_back(written: Seq<Seq<char>>)
    requires
        forall|i: int|
            0 <= i < written.len() ==> !is_substring(#[trigger] written[i], newline_escape())
                && without_cr(written[i]) == written[i],
    ensures
        file_lines(file_text(encoded(written))) == encoded(written),
        texts(decoded(encoded(written))) == written,
{
    let lines = encoded(written);
    assert forall|i: int| 0 <= i < lines.len() implies is_plain_line(#[trigger] lines[i]) by {
        lemma_encoded_one_line(written[i]);
        if written[i].len() > 0 {
            lemma_encoded_last(written[i]);
        }
    }
    lemma_lines_of_text(lines);
    assert(texts(decoded(lines)) =~= written) by {
        assert forall|i: int| 0 <= i < written.len() implies texts(decoded(lines))[i]
            == written[i] by {
            lemma_decode_encode(written[i]);
        }
    }
}

/// A synchronisation leaves a valid history: no more entries than the
/// capacity, no identifier twice.
pub proof fn lemma_synced_valid(h: HistoryState, foreign: Entries)
    requires
        h.valid(),
        keys_distinct(foreign),
    ensures
        h.synced(foreign).valid(),
{
    if h.file is Some {
        if h.must_truncate(foreign) {
            lemma_subrange_distinct(
                foreign,
                foreign.len() + h.pending().len() - h.capacity,
                foreign.len() as int,
            );
        }
        lemma_extended(h.retained(foreign), h.pending());
    }
}

/// Where the retained entries of the file and the pending ones share no
/// identifier, no pending entry is lost or moved: the history afterwards holds
/// the retained entries followed by the pending ones, each under its
/// identifier.
pub proof fn lemma_synced_keeps_pending(h: HistoryState, foreign: Entries)
    requires
        h.valid(),
        h.file is Some,
        keys_distinct(h.retained(foreign) + h.pending()),
    ensures
        h.synced(foreign).entries == h.retained(foreign) + h.pending(),
{
    lemma_extended_fresh(h.retained(foreign), h.pending());
}

/// After a synchronisation nothing is pending.
pub proof fn lemma_synced_nothing_pending(h: HistoryState, foreign: Entries)
    requires
        h.valid(),
        h.file is Some,
        keys_distinct(foreign),
    ensures
        h.synced(foreign).pending() == Entries::empty(),
{
    let merged = h.merged(foreign);
    if h.must_truncate(foreign) {
        lemma_subrange_distinct(
            foreign,
            foreign.len() + h.pending().len() - h.capacity,
            foreign.len() as int,
        );
    }
    lemma_extended(h.retained(foreign), h.pending());
}

} // verus!
