use history_store::lines::join_lines;
use history_store::lines::split_lines;
use std::io::BufRead;

fn lines(texts: &[&str]) -> Vec<String> {
    texts.iter().map(|t| t.to_string()).collect()
}

#[test]
fn split_cuts_at_line_breaks() {
    assert_eq!(split_lines("ls\ncd\n"), lines(&["ls", "cd"]));
    assert_eq!(split_lines("ls\ncd"), lines(&["ls", "cd"]));
    assert_eq!(split_lines("ls"), lines(&["ls"]));
    assert_eq!(split_lines("ls\n"), lines(&["ls"]));
}

#[test]
fn split_of_nothing_gives_no_line() {
    assert_eq!(split_lines(""), lines(&[]));
}

#[test]
fn split_keeps_empty_lines() {
    assert_eq!(split_lines("\n"), lines(&[""]));
    assert_eq!(split_lines("\n\n"), lines(&["", ""]));
    assert_eq!(split_lines("a\n\nb\n"), lines(&["a", "", "b"]));
    assert_eq!(split_lines("\na"), lines(&["", "a"]));
}

#[test]
fn split_drops_a_carriage_return_before_the_break() {
    assert_eq!(split_lines("ls\r\ncd\r\n"), lines(&["ls", "cd"]));
    assert_eq!(split_lines("\r\n"), lines(&[""]));
    assert_eq!(split_lines("a\r\r\n"), lines(&["a\r"]));
}

#[test]
fn split_keeps_other_carriage_returns() {
    assert_eq!(split_lines("a\rb\n"), lines(&["a\rb"]));
    assert_eq!(split_lines("ls\r"), lines(&["ls\r"]));
    assert_eq!(split_lines("\r"), lines(&["\r"]));
    assert_eq!(split_lines("\ra\n\r"), lines(&["\ra", "\r"]));
}

#[test]
fn split_reads_as_the_standard_line_reader() {
    for text in ["", "a", "a\n", "a\nb", "\n", "\r\n", "a\r", "a\r\nb\r", "\r\r\n\n", "größe\n→"] {
        let expected: Vec<String> = text.as_bytes().lines().map(|l| l.unwrap()).collect();
        assert_eq!(split_lines(text), expected);
    }
}

#[test]
fn join_ends_each_line_with_a_break() {
    assert_eq!(join_lines(&lines(&["ls", "cd"])), "ls\ncd\n");
    assert_eq!(join_lines(&lines(&["ls"])), "ls\n");
    assert_eq!(join_lines(&lines(&[])), "");
    assert_eq!(join_lines(&lines(&["", ""])), "\n\n");
}

#[test]
fn joined_lines_are_split_again() {
    for case in [vec![], vec!["ls"], vec!["ls", "cd /", ""], vec!["a<\\n>b", "a\rb"]] {
        let written = lines(&case);
        assert_eq!(split_lines(&join_lines(&written)), written);
    }
}

#[test]
fn line_that_ends_with_a_carriage_return_loses_it() {
    assert_eq!(split_lines(&join_lines(&lines(&["ls\r"]))), lines(&["ls"]));
}
