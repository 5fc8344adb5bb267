//! The ordered store: identifiers mapped to texts, kept in the order in which
//! the identifiers first came in.
//!
//! The entries live in an `indexmap::IndexMap`. What the map holds is spoken of
//! as a sequence of pairs, oldest first; each call into the map is a small
//! function whose contract says what the call does to that sequence.

use vstd::prelude::*;
use indexmap::IndexMap;

verus! {

/// What a store holds: pairs of identifier and text, oldest first.
pub type Entries = Seq<(i64, Seq<char>)>;

/// No identifier occurs twice.
pub open spec fn keys_distinct(s: Entries) -> bool {
    forall|i: int, j: int| 0 <= i < j < s.len() ==> s[i].0 != s[j].0
}

/// Some entry goes by `key`.
pub open spec fn has_key(s: Entries, key: i64) -> bool {
    exists|i: int| 0 <= i < s.len() && s[i].0 == key
}

/// The position at which `key` stands, where there is one. Among distinct
/// keys there is no second.
pub open spec fn position_of(s: Entries, key: i64) -> int {
    choose|i: int| 0 <= i < s.len() && s[i].0 == key
}

/// The position of `key`, or nothing where no entry goes by it.
pub open spec fn position(s: Entries, key: i64) -> Option<int> {
    if has_key(s, key) {
        Some(position_of(s, key))
    } else {
        None
    }
}

/// `s` after `key` was given `text`: a known key keeps its place and takes the
/// new text, a new one goes to the end.
pub open spec fn inserted(s: Entries, key: i64, text: Seq<char>) -> Entries {
    if has_key(s, key) {
        s.update(position_of(s, key), (key, text))
    } else {
        s.push((key, text))
    }
}

/// `s` without the entry that goes by `key`; the entries behind it move up.
pub open spec fn removed(s: Entries, key: i64) -> Entries {
    if has_key(s, key) {
        s.remove(position_of(s, key))
    } else {
        s
    }
}

/// `s` after each of `items` was inserted, in order.
pub open spec fn extended(s: Entries, items: Entries) -> Entries
    decreases items.len(),
{
    if items.len() == 0 {
        s
    } else {
        extended(inserted(s, items[0].0, items[0].1), items.skip(1))
    }
}

/// The texts of `s`, in order.
pub open spec fn texts(s: Entries) -> Seq<Seq<char>> {
    s.map_values(|e: (i64, Seq<char>)| e.1)
}

/// Inserting keeps the keys distinct, adds at most one entry, and leaves an
/// entry under the key.
pub proof fn lemma_inserted(s: Entries, key: i64, text: Seq<char>)
    requires
        keys_distinct(s),
    ensures
        keys_distinct(inserted(s, key, text)),
        has_key(inserted(s, key, text), key),
        has_key(s, key) ==> inserted(s, key, text).len() == s.len(),
        !has_key(s, key) ==> inserted(s, key, text).len() == s.len() + 1,
{
    let t = inserted(s, key, text);
    if has_key(s, key) {
        assert(t[position_of(s, key)].0 == key);
    } else {
        assert(t[s.len() as int].0 == key);
    }
}

/// Extending keeps the keys distinct and adds at most as many entries as came.
pub proof fn lemma_extended(s: Entries, items: Entries)
    requires
        keys_distinct(s),
    ensures
        keys_distinct(extended(s, items)),
        s.len() <= extended(s, items).len() <= s.len() + items.len(),
    decreases items.len(),
{
    if items.len() > 0 {
        lemma_extended(inserted(s, items[0].0, items[0].1), items.skip(1));
    }
}

/// Where no key of `items` occurs twice or in `s`, extending appends.
pub proof fn lemma_extended_fresh(s: Entries, items: Entries)
    requires
        keys_distinct(s + items),
    ensures
        extended(s, items) == s + items,
    decreases items.len(),
{
    if items.len() > 0 {
        let all = s + items;
        let head = items[0];
        assert(!has_key(s, head.0)) by {
            if has_key(s, head.0) {
                let p = position_of(s, head.0);
                assert(all[p].0 == s[p].0);
                assert(all[s.len() as int].0 == head.0);
            }
        }
        let next = s.push(head);
        assert(next + items.skip(1) =~= all);
        lemma_extended_fresh(next, items.skip(1));
    }
}

/// A part of a store with distinct keys has distinct keys.
pub proof fn lemma_subrange_distinct(s: Entries, from: int, to: int)
    requires
        keys_distinct(s),
        0 <= from <= to <= s.len(),
    ensures
        keys_distinct(s.subrange(from, to)),
{
}

/// `indexmap::IndexMap`: a hash map that keeps its pairs in the order in which
/// their keys came in.
#[verifier::external_type_specification]
#[verifier::external_body]
#[verifier::reject_recursive_types(K)]
#[verifier::reject_recursive_types(V)]
#[verifier::reject_recursive_types(S)]
pub struct ExIndexMap<K, V, S>(IndexMap<K, V, S>);

/// The pairs that a map holds, in the map's own order.
pub uninterp spec fn contents(m: IndexMap<i64, String>) -> Seq<(i64, Seq<char>)>;

/// `IndexMap::new`: a map that holds nothing.
#[verifier::external_body]
fn map_new() -> (m: IndexMap<i64, String>)
    ensures
        contents(m) == Seq::<(i64, Seq<char>)>::empty(),
{
    IndexMap::new()
}

/// `IndexMap::len`: the number of pairs.
#[verifier::external_body]
fn map_len(m: &IndexMap<i64, String>) -> (n: usize)
    ensures
        n == contents(*m).len(),
{
    m.len()
}

/// `IndexMap::get_index_of`: the index of the pair whose key is `key`, or
/// nothing where the map has no such key.
#[verifier::external_body]
fn map_get_index_of(m: &IndexMap<i64, String>, key: i64) -> (found: Option<usize>)
    ensures
        match found {
            Some(i) => i < contents(*m).len() && contents(*m)[i as int].0 == key,
            None => !has_key(contents(*m), key),
        },
{
    m.get_index_of(&key)
}

/// `IndexMap::get_index`: the pair at `index`, or nothing where `index` is not
/// below the length.
#[verifier::external_body]
fn map_get_index(m: &IndexMap<i64, String>, index: usize) -> (found: Option<(i64, &String)>)
    ensures
        match found {
            Some(pair) => index < contents(*m).len() && contents(*m)[index as int] == (
                pair.0,
                pair.1@,
            ),
            None => index >= contents(*m).len(),
        },
{
    m.get_index(index).map(|(k, v)| (*k, v))
}

/// `IndexMap::insert`: a key that the map has keeps its place and gets the new
/// value; a key that it lacks is put last.
#[verifier::external_body]
fn map_insert(m: &mut IndexMap<i64, String>, key: i64, value: String)
    ensures
        contents(*final(m)) == inserted(contents(*old(m)), key, value@),
{
    m.insert(key, value);
}

/// `IndexMap::shift_remove`: the pair under `key` leaves and is handed out, the
/// pairs behind it keep their order; a map without the key stays as it is.
#[verifier::external_body]
fn map_shift_remove(m: &mut IndexMap<i64, String>, key: i64) -> (gone: Option<String>)
    ensures
        contents(*final(m)) == removed(contents(*old(m)), key),
        match gone {
            Some(value) => {
                &&& has_key(contents(*old(m)), key)
                &&& value@ == contents(*old(m))[position_of(contents(*old(m)), key)].1
            },
            None => !has_key(contents(*old(m)), key),
        },
{
    m.shift_remove(&key)
}

/// `IndexMap::clear`: nothing is left.
#[verifier::external_body]
fn map_clear(m: &mut IndexMap<i64, String>)
    ensures
        contents(*final(m)) == Seq::<(i64, Seq<char>)>::empty(),
{
    m.clear();
}

/// `IndexMap::split_off`: the map keeps the pairs before `at`, and the pairs
/// from `at` on are handed out as a map of their own.
#[verifier::external_body]
fn map_split_off(m: &mut IndexMap<i64, String>, at: usize) -> (tail: IndexMap<i64, String>)
    requires
        at <= contents(*old(m)).len(),
    ensures
        contents(*final(m)) == contents(*old(m)).take(at as int),
        contents(tail) == contents(*old(m)).skip(at as int),
{
    m.split_off(at)
}

/// `IndexMap::drain` from `from` to the end: the map keeps the pairs before
/// `from`, and the pairs from `from` on are handed out in their order.
#[verifier::external_body]
fn map_drain_from(m: &mut IndexMap<i64, String>, from: usize) -> (tail: Vec<(i64, String)>)
    requires
        from <= contents(*old(m)).len(),
    ensures
        contents(*final(m)) == contents(*old(m)).take(from as int),
        tail.deep_view() == contents(*old(m)).skip(from as int),
{
    m.drain(from..).collect()
}

/// `IndexMap::extend`: as if each pair were inserted, in the order given.
#[verifier::external_body]
fn map_extend(m: &mut IndexMap<i64, String>, items: Vec<(i64, String)>)
    ensures
        contents(*final(m)) == extended(contents(*old(m)), items.deep_view()),
{
    m.extend(items);
}

/// Identifiers mapped to texts, oldest first, no identifier twice.
#[derive(Debug)]
pub struct OrderedStore {
    map: IndexMap<i64, String>,
}

impl View for OrderedStore {
    type V = Entries;

    closed spec fn view(&self) -> Entries {
        contents(self.map)
    }
}

impl OrderedStore {
    /// No identifier occurs twice. This holds of every store.
    #[verifier::type_invariant]
    pub open spec fn wf(&self) -> bool {
        keys_distinct(self@)
    }

    /// A store that holds nothing.
    pub fn new() -> (store: Self)
        ensures
            store@ == Entries::empty(),
    {
        OrderedStore { map: map_new() }
    }

    /// A store made by inserting each of `items`, in order, into an empty one.
    pub fn collect(items: Vec<(i64, String)>) -> (store: Self)
        ensures
            store@ == extended(Entries::empty(), items.deep_view()),
    {
        let mut map = map_new();
        map_extend(&mut map, items);
        proof {
            lemma_extended(Entries::empty(), items.deep_view());
        }
        OrderedStore { map }
    }

    /// The number of entries.
    pub fn len(&self) -> (n: usize)
        ensures
            n == self@.len(),
    {
        map_len(&self.map)
    }

    /// Gives `key` the text `text`: in place where the store has the key, at
    /// the end where it has not.
    pub fn insert(&mut self, key: i64, text: String)
        ensures
            final(self)@ == inserted(old(self)@, key, text@),
    {
        proof {
            use_type_invariant(&*self);
        }
        // The map is taken out while it changes and put back afterwards.
        let mut map = map_new();
        std::mem::swap(&mut map, &mut self.map);
        map_insert(&mut map, key, text);
        self.map = map;
    }

    /// Takes the oldest entry out and hands it back; an empty store has none.
    pub fn evict_oldest(&mut self) -> (evicted: Option<(i64, String)>)
        ensures
            match evicted {
                Some(entry) => old(self)@.len() > 0 && (entry.0, entry.1@) == old(self)@[0]
                    && final(self)@ == old(self)@.skip(1),
                None => old(self)@.len() == 0 && final(self)@ == old(self)@,
            },
    {
        let first = match map_get_index(&self.map, 0) {
            Some(pair) => Some(pair.0),
            None => None,
        };
        match first {
            None => None,
            Some(key) => {
                proof {
                    use_type_invariant(&*self);
                }
                let mut map = map_new();
                std::mem::swap(&mut map, &mut self.map);
                let gone = map_shift_remove(&mut map, key);
                self.map = map;
                match gone {
                    Some(text) => Some((key, text)),
                    None => None,
                }
            },
        }
    }

    /// The position of the entry that goes by `key`.
    pub fn lookup_position(&self, key: i64) -> (found: Option<usize>)
        ensures
            match found {
                Some(p) => position(self@, key) == Some(p as int),
                None => position(self@, key) is None,
            },
    {
        proof {
            use_type_invariant(self);
        }
        map_get_index_of(&self.map, key)
    }

    /// The entry at `index`, or nothing where `index` is not below the length.
    pub fn entry_at(&self, index: usize) -> (found: Option<(i64, &String)>)
        ensures
            match found {
                Some(pair) => index < self@.len() && self@[index as int] == (pair.0, pair.1@),
                None => index >= self@.len(),
            },
    {
        map_get_index(&self.map, index)
    }

    /// The entries at the positions from `from` up to, not including, `to`, in
    /// order; positions beyond the end hold nothing.
    pub fn slice(&self, from: usize, to: usize) -> (part: Vec<(i64, String)>)
        ensures
            part.deep_view() == if from < to && from < self@.len() {
                self@.subrange(
                    from as int,
                    if to < self@.len() {
                        to as int
                    } else {
                        self@.len() as int
                    },
                )
            } else {
                Entries::empty()
            },
    {
        let mut part: Vec<(i64, String)> = Vec::new();
        let len: usize = self.len();
        let end: usize = if to < len { to } else { len };
        let mut i: usize = from;
        while i < end
            invariant
                from <= i,
                from < end ==> i <= end,
                end <= self@.len(),
                part.deep_view() == if from < end {
                    self@.subrange(from as int, i as int)
                } else {
                    Entries::empty()
                },
            decreases end - i,
        {
            match self.entry_at(i) {
                Some(pair) => {
                    let ghost before = part.deep_view();
                    part.push((pair.0, pair.1.clone()));
                    assert(part.deep_view() =~= before.push(self@[i as int]));
                },
                None => {},
            }
            i = i + 1;
        }
        assert(part.deep_view() =~= if from < end {
            self@.subrange(from as int, end as int)
        } else {
            Entries::empty()
        });
        part
    }

    /// Takes every entry out.
    pub fn clear(&mut self)
        ensures
            final(self)@ == Entries::empty(),
    {
        let mut map = map_new();
        std::mem::swap(&mut map, &mut self.map);
        map_clear(&mut map);
        self.map = map;
    }

    /// Keeps the entries before `at` and hands the others back as a store of
    /// their own.
    pub fn split_off(&mut self, at: usize) -> (tail: Self)
        requires
            at <= old(self)@.len(),
        ensures
            final(self)@ == old(self)@.take(at as int),
            tail@ == old(self)@.skip(at as int),
    {
        proof {
            use_type_invariant(&*self);
        }
        let mut map = map_new();
        std::mem::swap(&mut map, &mut self.map);
        let tail = map_split_off(&mut map, at);
        self.map = map;
        OrderedStore { map: tail }
    }

    /// Keeps the entries before `from` and hands the others back, in order.
    pub fn drain_from(&mut self, from: usize) -> (tail: Vec<(i64, String)>)
        requires
            from <= old(self)@.len(),
        ensures
            final(self)@ == old(self)@.take(from as int),
            tail.deep_view() == old(self)@.skip(from as int),
    {
        proof {
            use_type_invariant(&*self);
        }
        let mut map = map_new();
        std::mem::swap(&mut map, &mut self.map);
        let tail = map_drain_from(&mut map, from);
        self.map = map;
        tail
    }

    /// Inserts each of `items`, in order.
    pub fn extend(&mut self, items: Vec<(i64, String)>)
        ensures
            final(self)@ == extended(old(self)@, items.deep_view()),
    {
        proof {
            use_type_invariant(&*self);
            lemma_extended(self@, items.deep_view());
        }
        let mut map = map_new();
        std::mem::swap(&mut map, &mut self.map);
        map_extend(&mut map, items);
        self.map = map;
    }
}

} // verus!
