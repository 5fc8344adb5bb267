//! The text of a history file: its lines, and the text that lines make.

use vstd::prelude::*;
use vstd::string::StringExecFns;
use crate::codec::is_one_line;
use crate::text::chars_of;
use crate::text::push_char;

verus! {

/// `line` without the carriage return at its end, if it has one.
pub open spec fn without_cr(line: Seq<char>) -> Seq<char> {
    if line.len() > 0 && line.last() == '\r' {
        line.drop_last()
    } else {
        line
    }
}

/// The lines of the text that begins with `pending`, which holds no line
/// break, and goes on with `rest`. A line ends at a line break; a carriage
/// return right before the break goes with it. What stands behind the last
/// break is a line too, unless it is empty.
pub open spec fn lines_from(pending: Seq<char>, rest: Seq<char>) -> Seq<Seq<char>>
    decreases rest.len(),
{
    if rest.len() == 0 {
        if pending.len() == 0 {
            Seq::empty()
        } else {
            seq![pending]
        }
    } else if rest[0] == '\n' {
        seq![without_cr(pending)] + lines_from(Seq::empty(), rest.skip(1))
    } else {
        lines_from(pending.push(rest[0]), rest.skip(1))
    }
}

/// The lines of `text`.
pub open spec fn file_lines(text: Seq<char>) -> Seq<Seq<char>> {
    lines_from(Seq::empty(), text)
}

/// The text that holds `lines`: each line, followed by a line break.
pub open spec fn file_text(lines: Seq<Seq<char>>) -> Seq<char>
    decreases lines.len(),
{
    if lines.len() == 0 {
        Seq::empty()
    } else {
        file_text(lines.drop_last()) + lines.last() + seq!['\n']
    }
}

/// The line can be written and read back: it holds no line break and does not
/// end with a carriage return.
pub open spec fn is_plain_line(line: Seq<char>) -> bool {
    is_one_line(line) && without_cr(line) == line
}

/// The lines of `text`.
pub fn split_lines(text: &str) -> (lines: Vec<String>)
    ensures
        lines.deep_view() == file_lines(text@),
{
    let chars = chars_of(text);
    let mut lines: Vec<String> = Vec::new();
    let mut current = String::new();
    let mut held_cr = false;
    let mut i: usize = 0;
    assert(chars@.skip(0) =~= chars@);
    while i < chars.len()
        invariant
            i <= chars.len(),
            !held_cr ==> without_cr(current@) == current@,
            lines.deep_view() + lines_from(
                if held_cr {
                    current@.push('\r')
                } else {
                    current@
                },
                chars@.skip(i as int),
            ) == file_lines(chars@),
        decreases chars.len() - i,
    {
        let c = chars[i];
        let ghost done = lines.deep_view();
        let ghost line = current@;
        assert(chars@.skip(i as int).skip(1) =~= chars@.skip(i + 1));
        if c == '\n' {
            assert(held_cr ==> without_cr(line.push('\r')) =~= line);
            lines.push(current);
            assert(lines.deep_view() =~= done.push(line));
            current = String::new();
            held_cr = false;
        } else {
            if held_cr {
                push_char(&mut current, '\r');
            }
            if c == '\r' {
                held_cr = true;
            } else {
                held_cr = false;
                push_char(&mut current, c);
            }
        }
        i = i + 1;
    }
    if held_cr {
        push_char(&mut current, '\r');
    }
    if !current.as_str().is_empty() {
        let ghost done = lines.deep_view();
        let ghost line = current@;
        lines.push(current);
        assert(lines.deep_view() =~= done.push(line));
    }
    lines
}

/// The text that holds `lines`.
pub fn join_lines(lines: &Vec<String>) -> (text: String)
    ensures
        text@ == file_text(lines.deep_view()),
{
    let mut text = String::new();
    let mut i: usize = 0;
    while i < lines.len()
        invariant
            i <= lines.len(),
            text@ == file_text(lines.deep_view().take(i as int)),
        decreases lines.len() - i,
    {
        assert(lines.deep_view().take(i + 1).drop_last() =~= lines.deep_view().take(i as int));
        text.append(lines[i].as_str());
        push_char(&mut text, '\n');
        i = i + 1;
    }
    assert(lines.deep_view().take(lines.len() as int) =~= lines.deep_view());
    text
}

/// The text of lines put one behind the other is their texts put one behind
/// the other.
pub proof fn lemma_file_text_add(a: Seq<Seq<char>>, b: Seq<Seq<char>>)
    ensures
        file_text(a + b) == file_text(a) + file_text(b),
    decreases b.len(),
{
    if b.len() > 0 {
        assert((a + b).drop_last() =~= a + b.drop_last());
        lemma_file_text_add(a, b.drop_last());
    }
}

/// Each line of a text holds no line break.
pub proof fn lemma_lines_are_one_line(pending: Seq<char>, rest: Seq<char>)
    requires
        is_one_line(pending),
    ensures
        forall|i: int|
            0 <= i < lines_from(pending, rest).len() ==> is_one_line(
                #[trigger] lines_from(pending, rest)[i],
            ),
    decreases rest.len(),
{
    let lines = lines_from(pending, rest);
    if rest.len() == 0 {
        assert forall|i: int| 0 <= i < lines.len() implies is_one_line(#[trigger] lines[i]) by {
            assert(lines[i] == pending);
        }
    } else if rest[0] == '\n' {
        let behind = lines_from(Seq::empty(), rest.skip(1));
        lemma_lines_are_one_line(Seq::empty(), rest.skip(1));
        assert forall|i: int| 0 <= i < lines.len() implies is_one_line(#[trigger] lines[i]) by {
            if i > 0 {
                assert(lines[i] == behind[i - 1]);
            }
        }
    } else {
        lemma_lines_are_one_line(pending.push(rest[0]), rest.skip(1));
        assert(lines == lines_from(pending.push(rest[0]), rest.skip(1)));
    }
}

/// Reading goes through a piece without line break by taking it to what is
/// pending.
proof fn lemma_lines_from_piece(pending: Seq<char>, piece: Seq<char>, rest: Seq<char>)
    requires
        is_one_line(piece),
    ensures
        lines_from(pending, piece + rest) == lines_from(pending + piece, rest),
    decreases piece.len(),
{
    if piece.len() > 0 {
        assert((piece + rest).skip(1) =~= piece.skip(1) + rest);
        lemma_lines_from_piece(pending.push(piece[0]), piece.skip(1), rest);
        assert(pending.push(piece[0]) + piece.skip(1) =~= pending + piece);
    }
}

/// Lines that can be written and read back are the lines of their text.
pub proof fn lemma_lines_of_text(lines: Seq<Seq<char>>)
    requires
        forall|i: int| 0 <= i < lines.len() ==> is_plain_line(#[trigger] lines[i]),
    ensures
        file_lines(file_text(lines)) == lines,
    decreases lines.len(),
{
    if lines.len() > 0 {
        let first = lines[0];
        let others = lines.skip(1);
        let behind = seq!['\n'] + file_text(others);
        assert(lines =~= seq![first] + others);
        lemma_file_text_add(seq![first], others);
        assert(file_text(seq![first]) =~= first + seq!['\n']) by {
            assert(seq![first].drop_last() =~= Seq::<Seq<char>>::empty());
            assert(file_text(Seq::<Seq<char>>::empty()) =~= Seq::<char>::empty());
        }
        assert(file_text(lines) =~= first + behind);
        lemma_lines_from_piece(Seq::empty(), first, behind);
        assert(behind.skip(1) =~= file_text(others));
        lemma_lines_of_text(others);
    }
}

} // verus!
