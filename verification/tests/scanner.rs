use flushy::mode::{Align, Flush, Mode};
use flushy::scan::Scanner;

const LEFT: Mode = Mode::AlignMode(Align::Left);
const RIGHT: Mode = Mode::AlignMode(Align::Right);
const FLUSH: Mode = Mode::FlushMode(Flush::Flush);
const HYPHEN: Mode = Mode::FlushMode(Flush::FlushHyphen);

fn feed_all(scanner: &mut Scanner, text: &str) -> Vec<String> {
    text.chars().filter_map(|c| scanner.feed(c)).collect()
}

#[test]
fn new_scanner_has_gathered_nothing() {
    let scanner = Scanner::new(10, LEFT);
    assert_eq!(scanner.chunk(), "");
    assert_eq!(scanner.last_space(), 0);
    assert_eq!(scanner.finish(), None);
}

#[test]
fn spaces_in_front_of_an_empty_chunk_are_dropped() {
    let mut scanner = Scanner::new(10, LEFT);
    assert_eq!(scanner.feed(' '), None);
    assert_eq!(scanner.feed(' '), None);
    assert_eq!(scanner.chunk(), "");
    assert_eq!(scanner.feed('a'), None);
    assert_eq!(scanner.feed(' '), None);
    assert_eq!(scanner.chunk(), "a ");
}

#[test]
fn scanner_remembers_the_last_space() {
    let mut scanner = Scanner::new(10, LEFT);
    assert!(feed_all(&mut scanner, "ab").is_empty());
    assert_eq!(scanner.last_space(), 0);
    assert!(feed_all(&mut scanner, " cd").is_empty());
    assert_eq!(scanner.last_space(), 2);
    assert!(feed_all(&mut scanner, " e").is_empty());
    assert_eq!(scanner.last_space(), 5);
    assert_eq!(scanner.chunk(), "ab cd e");
}

#[test]
fn last_space_counts_characters() {
    let mut scanner = Scanner::new(10, LEFT);
    assert!(feed_all(&mut scanner, "éé é").is_empty());
    assert_eq!(scanner.last_space(), 2);
}

#[test]
fn chunk_is_complete_at_the_width() {
    let mut scanner = Scanner::new(5, LEFT);
    assert!(feed_all(&mut scanner, "ab c").is_empty());
    assert_eq!(scanner.feed('d'), Some("ab".to_string()));
    assert_eq!(scanner.chunk(), "cd");
    assert_eq!(scanner.last_space(), 0);
}

#[test]
fn space_that_completes_a_chunk_leaves_nothing_behind() {
    let mut scanner = Scanner::new(5, RIGHT);
    assert!(feed_all(&mut scanner, "abcd").is_empty());
    assert_eq!(scanner.feed(' '), Some(" abcd".to_string()));
    assert_eq!(scanner.chunk(), "");
    assert_eq!(scanner.finish(), None);
}

#[test]
fn chunk_without_a_space_leaves_nothing_behind() {
    let mut scanner = Scanner::new(3, LEFT);
    assert_eq!(feed_all(&mut scanner, "abc"), vec!["abc"]);
    assert_eq!(scanner.chunk(), "");
}

#[test]
fn flush_leaves_nothing_behind() {
    let mut scanner = Scanner::new(4, FLUSH);
    assert_eq!(feed_all(&mut scanner, "ab cd"), vec!["ab c"]);
    assert_eq!(scanner.chunk(), "d");
    assert_eq!(scanner.finish(), Some("d".to_string()));
}

#[test]
fn hyphen_takes_the_last_letter_up_again() {
    let mut scanner = Scanner::new(5, HYPHEN);
    assert_eq!(feed_all(&mut scanner, "ab cd"), vec!["ab c-"]);
    assert_eq!(scanner.chunk(), "d");
    assert_eq!(feed_all(&mut scanner, "e f."), vec!["de f."]);
    assert_eq!(scanner.chunk(), "");
}

#[test]
fn finish_gives_what_is_gathered() {
    let mut scanner = Scanner::new(10, RIGHT);
    assert!(feed_all(&mut scanner, "ab cd").is_empty());
    assert_eq!(scanner.finish(), Some("     ab cd".to_string()));
    let mut scanner = Scanner::new(10, LEFT);
    assert!(feed_all(&mut scanner, "ab cd ").is_empty());
    assert_eq!(scanner.finish(), Some("ab cd ".to_string()));
}

#[test]
fn feeding_a_line_gives_the_lines_of_wrap() {
    let text = "  it was the best of  times, it was the worst of times ";
    for mode in [LEFT, RIGHT, FLUSH, HYPHEN] {
        for col in [2, 3, 7, 10, 80] {
            let mut scanner = Scanner::new(col, mode);
            let mut lines = feed_all(&mut scanner, text);
            lines.extend(scanner.finish());
            assert_eq!(lines, flushy::wrap::wrap(text, col, mode));
        }
    }
}
