//! One entry per line: how an entry's text is written as a single line and read
//! back, and the identifier that a line read from a file is given.

use vstd::prelude::*;
use vstd::bytes::spec_u64_to_le_bytes;
use vstd::bytes::u64_to_le_bytes;
use vstd::std_specs::hash::DefaultHasherAdditionalSpecFns;
use vstd::string::StringExecFns;
use vstd::utf8::encode_utf8;
use std::collections::hash_map::DefaultHasher;
use std::hash::Hasher;
use crate::ident::HistoryItemId;
use crate::text::chars_of;
use crate::text::is_prefix;
use crate::text::is_substring;
use crate::text::matches_at;
use crate::text::occurs_at;
use crate::text::push_char;

verus! {

/// What stands in a line for a line break of the entry.
pub const NEWLINE_ESCAPE: &'static str = "<\\n>";

/// The characters of [`NEWLINE_ESCAPE`].
pub open spec fn newline_escape() -> Seq<char> {
    seq!['<', '\\', 'n', '>']
}

/// `text` with each line break replaced by the escape.
pub open spec fn encode_text(text: Seq<char>) -> Seq<char>
    decreases text.len(),
{
    if text.len() == 0 {
        Seq::empty()
    } else if text[0] == '\n' {
        newline_escape() + encode_text(text.skip(1))
    } else {
        seq![text[0]] + encode_text(text.skip(1))
    }
}

/// `line` with each escape, taken from the left and without overlap, replaced
/// by a line break.
pub open spec fn decode_text(line: Seq<char>) -> Seq<char>
    decreases line.len(),
{
    if line.len() == 0 {
        Seq::empty()
    } else if is_prefix(line, newline_escape()) {
        seq!['\n'] + decode_text(line.skip(4))
    } else {
        seq![line[0]] + decode_text(line.skip(1))
    }
}

/// The line holds no line break.
pub open spec fn is_one_line(line: Seq<char>) -> bool {
    forall|i: int| 0 <= i < line.len() ==> line[i] != '\n'
}

/// The identifier of the line `line` read at position `counter`: the standard
/// hash of the position's eight bytes, lowest first, of the line's UTF-8 bytes
/// and of a closing byte that no UTF-8 text holds. These are the bytes that a
/// little-endian machine hashes for an `i64` followed by a `str`.
pub open spec fn line_id(counter: i64, line: Seq<char>) -> i64 {
    DefaultHasher::spec_finish(
        seq![spec_u64_to_le_bytes(counter as u64), encode_utf8(line), seq![0xffu8]],
    ) as i64
}

/// The constant holds the four characters of the escape.
proof fn lemma_escape_literal()
    ensures
        NEWLINE_ESCAPE@ == newline_escape(),
{
    reveal_strlit("<\\n>");
}

/// The line that stands for `s`: it holds no line break.
pub fn encode_entry(s: &str) -> (line: String)
    ensures
        line@ == encode_text(s@),
        is_one_line(line@),
{
    proof {
        lemma_encoded_one_line(s@);
    }
    let chars = chars_of(s);
    let mut line = String::new();
    let mut i: usize = 0;
    assert(chars@.skip(0) =~= chars@);
    while i < chars.len()
        invariant
            i <= chars.len(),
            line@ + encode_text(chars@.skip(i as int)) == encode_text(chars@),
        decreases chars.len() - i,
    {
        let c = chars[i];
        proof {
            lemma_escape_literal();
            assert(chars@.skip(i as int).skip(1) == chars@.skip(i + 1));
        }
        if c == '\n' {
            line.append(NEWLINE_ESCAPE);
        } else {
            push_char(&mut line, c);
        }
        i = i + 1;
    }
    line
}

/// The entry that the line `s` stands for, under the identifier that belongs
/// to a line with this text at position `counter`. The caller gives each line
/// of one pass its own position; `counter` is left as it is.
pub fn decode_entry(s: &str, counter: &mut i64) -> (entry: (HistoryItemId, String))
    ensures
        entry.0 == HistoryItemId(line_id(*old(counter), s@)),
        entry.1@ == decode_text(s@),
        *final(counter) == *old(counter),
{
    let mut hasher = DefaultHasher::new();
    let position = u64_to_le_bytes(#[verifier::truncate] (*counter as u64));
    hasher.write(position.as_slice());
    hasher.write(s.as_bytes());
    let closing: [u8; 1] = [0xff];
    assert(closing@ =~= seq![0xffu8]);
    hasher.write(closing.as_slice());
    let id: i64 = #[verifier::truncate] (hasher.finish() as i64);
    proof {
        assert(hasher@ =~= seq![
            spec_u64_to_le_bytes(*counter as u64),
            encode_utf8(s@),
            seq![0xffu8],
        ]);
    }

    let chars = chars_of(s);
    let escape = chars_of(NEWLINE_ESCAPE);
    let mut text = String::new();
    let mut i: usize = 0;
    proof {
        lemma_escape_literal();
        assert(chars@.skip(0) =~= chars@);
    }
    while i < chars.len()
        invariant
            i <= chars.len(),
            escape@ == newline_escape(),
            text@ + decode_text(chars@.skip(i as int)) == decode_text(chars@),
        decreases chars.len() - i,
    {
        let rest = Ghost(chars@.skip(i as int));
        if matches_at(&chars, &escape, i) {
            proof {
                assert(rest@.subrange(0, 4) =~= chars@.subrange(i as int, i + 4));
                assert(rest@.skip(4) == chars@.skip(i + 4));
            }
            push_char(&mut text, '\n');
            i = i + 4;
        } else {
            proof {
                if is_prefix(rest@, newline_escape()) {
                    assert(rest@.subrange(0, 4) =~= chars@.subrange(i as int, i + 4));
                }
                assert(rest@.skip(1) == chars@.skip(i + 1));
            }
            push_char(&mut text, chars[i]);
            i = i + 1;
        }
    }
    (HistoryItemId(id), text)
}

/// A written line holds no line break.
pub proof fn lemma_encoded_one_line(text: Seq<char>)
    ensures
        is_one_line(encode_text(text)),
    decreases text.len(),
{
    if text.len() > 0 {
        lemma_encoded_one_line(text.skip(1));
    }
}

/// A written line ends as its text ends, with `>` in place of a line break.
pub proof fn lemma_encoded_last(text: Seq<char>)
    requires
        text.len() > 0,
    ensures
        encode_text(text).len() > 0,
        encode_text(text).last() == if text.last() == '\n' {
            '>'
        } else {
            text.last()
        },
    decreases text.len(),
{
    let rest = text.skip(1);
    if rest.len() > 0 {
        lemma_encoded_last(rest);
    } else {
        assert(encode_text(rest) =~= Seq::<char>::empty());
    }
}

/// Where a written line begins with a character other than `<`, the text
/// begins with that character too, and the rest of the line is the rest of the
/// text as written.
proof fn lemma_encoded_head(text: Seq<char>)
    requires
        encode_text(text).len() > 0,
        encode_text(text)[0] != '<',
    ensures
        text.len() > 0,
        text[0] == encode_text(text)[0],
        encode_text(text).skip(1) == encode_text(text.skip(1)),
{
}

/// A text that holds no escape is read back as it was written.
pub proof fn lemma_decode_encode(text: Seq<char>)
    requires
        !is_substring(text, newline_escape()),
    ensures
        decode_text(encode_text(text)) == text,
    decreases text.len(),
{
    let escape = newline_escape();
    if text.len() > 0 {
        let rest = text.skip(1);
        let written = encode_text(rest);
        assert(!is_substring(rest, escape)) by {
            if is_substring(rest, escape) {
                let at = choose|at: int| occurs_at(rest, escape, at);
                assert(text.subrange(at + 1, at + 1 + 4) =~= rest.subrange(at, at + 4));
                assert(occurs_at(text, escape, at + 1));
            }
        }
        lemma_decode_encode(rest);
        if text[0] == '\n' {
            let line = escape + written;
            assert(line.subrange(0, 4) =~= escape);
            assert(line.skip(4) =~= written);
        } else {
            let line = seq![text[0]] + written;
            assert(line.skip(1) =~= written);
            if is_prefix(line, escape) {
                lemma_encoded_head(rest);
                lemma_encoded_head(rest.skip(1));
                lemma_encoded_head(rest.skip(1).skip(1));
                assert(text.subrange(0, 4) =~= escape);
                assert(occurs_at(text, escape, 0));
            }
        }
    }
}

/// A line without line break that is read and written again is the same line.
pub proof fn lemma_encode_decode(line: Seq<char>)
    requires
        is_one_line(line),
    ensures
        encode_text(decode_text(line)) == line,
    decreases line.len(),
{
    if line.len() > 0 {
        if is_prefix(line, newline_escape()) {
            let rest = line.skip(4);
            lemma_encode_decode(rest);
            assert((seq!['\n'] + decode_text(rest)).skip(1) =~= decode_text(rest));
        } else {
            let rest = line.skip(1);
            lemma_encode_decode(rest);
            assert((seq![line[0]] + decode_text(rest)).skip(1) =~= decode_text(rest));
        }
    }
}

} // verus!
