use flushy::mode::{Align, Flush, Mode};
use flushy::paragraph::{format_lines, format_paragraphs};

const LEFT: Mode = Mode::AlignMode(Align::Left);
const FLUSH: Mode = Mode::FlushMode(Flush::Flush);

fn text(lines: &[&str]) -> Vec<String> {
    lines.iter().map(|line| line.to_string()).collect()
}

#[test]
fn every_line_is_wrapped_by_itself() {
    let input = text(&["the quick brown", "", "fox"]);
    assert_eq!(
        format_lines(&input, 10, LEFT),
        "the quick\nbrown\n\nfox\n"
    );
}

#[test]
fn no_lines_give_no_text() {
    assert_eq!(format_lines(&text(&[]), 10, LEFT), "");
    assert_eq!(format_paragraphs(&text(&[]), 10, LEFT), "");
}

#[test]
fn two_paragraphs_are_wrapped_apart() {
    let input = text(&[
        "the quick",
        "brown fox",
        "",
        "jumps over",
        "the lazy dog",
        "",
    ]);
    assert_eq!(
        format_paragraphs(&input, 10, LEFT),
        "the quick\nbrown fox\n\njumps\nover the\nlazy dog\n\n"
    );
}

#[test]
fn words_do_not_cross_an_empty_line() {
    let first = text(&["aa bb", ""]);
    let second = text(&["cc dd"]);
    let both = text(&["aa bb", "", "cc dd"]);
    assert_eq!(format_paragraphs(&both, 80, LEFT), "aa bb\n\ncc dd\n");
    assert_eq!(
        format_paragraphs(&both, 80, LEFT),
        format_paragraphs(&first, 80, LEFT) + &format_paragraphs(&second, 80, LEFT)
    );
}

#[test]
fn a_paragraph_at_the_end_is_wrapped_too() {
    let input = text(&["the quick", "brown fox"]);
    assert_eq!(format_paragraphs(&input, 10, LEFT), "the quick\nbrown fox\n");
    assert_eq!(format_paragraphs(&input, 80, LEFT), "the quick brown fox\n");
}

#[test]
fn lines_of_a_paragraph_are_joined_by_one_space() {
    let input = text(&["ab", "cd", "ef", ""]);
    assert_eq!(format_paragraphs(&input, 80, FLUSH), "ab cd ef\n\n");
    assert_eq!(format_paragraphs(&input, 4, FLUSH), "ab c\nd ef\n\n");
}

#[test]
fn empty_lines_in_a_row_give_empty_paragraphs() {
    let input = text(&["", "", "ab"]);
    assert_eq!(format_paragraphs(&input, 10, LEFT), "\n\n\n\nab\n");
}
