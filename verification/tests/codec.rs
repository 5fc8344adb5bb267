use history_store::codec::decode_entry;
use history_store::codec::encode_entry;
use history_store::codec::NEWLINE_ESCAPE;
use history_store::ident::HistoryItemId;
use std::collections::hash_map::DefaultHasher;
use std::hash::Hash;
use std::hash::Hasher;

fn round_trip(text: &str) -> String {
    let mut counter: i64 = 0;
    decode_entry(&encode_entry(text), &mut counter).1
}

#[test]
fn escape_is_four_characters() {
    assert_eq!(NEWLINE_ESCAPE, "<\\n>");
    assert_eq!(NEWLINE_ESCAPE.chars().count(), 4);
}

#[test]
fn encode_replaces_each_line_break() {
    assert_eq!(encode_entry("a\nb"), "a<\\n>b");
    assert_eq!(encode_entry("\n"), "<\\n>");
    assert_eq!(encode_entry("\n\n"), "<\\n><\\n>");
    assert_eq!(encode_entry("if x {\n  y\n}"), "if x {<\\n>  y<\\n>}");
}

#[test]
fn encode_leaves_other_text_alone() {
    assert_eq!(encode_entry(""), "");
    assert_eq!(encode_entry("ls -la"), "ls -la");
    assert_eq!(encode_entry("echo <\\n"), "echo <\\n");
    assert_eq!(encode_entry("größe → ∑"), "größe → ∑");
    assert_eq!(encode_entry("a\r\tb"), "a\r\tb");
}

#[test]
fn encoded_line_holds_no_line_break() {
    for text in ["", "a", "\n", "a\nb\nc\n", "\n\n\n", "x\r\ny"] {
        assert!(!encode_entry(text).contains('\n'));
    }
}

#[test]
fn decode_replaces_each_escape() {
    let mut counter: i64 = 0;
    assert_eq!(decode_entry("a<\\n>b", &mut counter).1, "a\nb");
    assert_eq!(decode_entry("<\\n>", &mut counter).1, "\n");
    assert_eq!(decode_entry("<\\n><\\n>x", &mut counter).1, "\n\nx");
    assert_eq!(decode_entry("ls", &mut counter).1, "ls");
    assert_eq!(decode_entry("", &mut counter).1, "");
}

#[test]
fn decode_reads_escapes_from_the_left() {
    let mut counter: i64 = 0;
    assert_eq!(decode_entry("<<\\n>", &mut counter).1, "<\n");
    assert_eq!(decode_entry("<\\n", &mut counter).1, "<\\n");
    assert_eq!(decode_entry("<\\n>>", &mut counter).1, "\n>");
    assert_eq!(decode_entry("<\\<\\n>n>", &mut counter).1, "<\\\nn>");
    assert_eq!(decode_entry("ä<\\n>ö", &mut counter).1, "ä\nö");
}

#[test]
fn decode_leaves_the_counter() {
    let mut counter: i64 = 41;
    let _ = decode_entry("ls", &mut counter);
    assert_eq!(counter, 41);
}

#[test]
fn decode_gives_the_same_identifier_for_the_same_position_and_line() {
    let mut counter: i64 = 5;
    let first = decode_entry("git status", &mut counter);
    let second = decode_entry("git status", &mut counter);
    assert_eq!(first.0, second.0);
    assert_eq!(first.1, second.1);
}

#[test]
fn decode_tells_positions_and_lines_apart() {
    let mut zero: i64 = 0;
    let mut one: i64 = 1;
    let a = decode_entry("ls", &mut zero).0;
    let b = decode_entry("ls", &mut one).0;
    let c = decode_entry("ls ", &mut zero).0;
    assert_ne!(a, b);
    assert_ne!(a, c);
}

#[test]
fn decode_hashes_position_then_line() {
    // Where the machine writes integers lowest byte first, the identifier is
    // the standard hash of the position followed by the line.
    if u16::from_ne_bytes([1, 0]) == 1 {
        for (counter, line) in [(0i64, "ls"), (7, "a<\\n>b"), (-3, ""), (i64::MAX, "größe")] {
            let mut hasher = DefaultHasher::new();
            counter.hash(&mut hasher);
            line.hash(&mut hasher);
            let expected = HistoryItemId(hasher.finish() as i64);
            let mut position = counter;
            assert_eq!(decode_entry(line, &mut position).0, expected);
        }
    }
}

#[test]
fn text_without_escape_comes_back() {
    for text in [
        "",
        "ls",
        "a\nb",
        "\n",
        "\n\n",
        "<",
        "<\n",
        "<\\\n",
        "<\\n\n>",
        "<\\n",
        "\\n>",
        "<<\\n",
        "echo '<'\necho '>'",
        "größe\n→",
    ] {
        assert!(!text.contains(NEWLINE_ESCAPE));
        assert_eq!(round_trip(text), text);
    }
}

#[test]
fn text_with_escape_comes_back_with_a_line_break() {
    assert_eq!(round_trip("a<\\n>b"), "a\nb");
}
