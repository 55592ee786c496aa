use flushy::layout::{carry_over, carry_with, format_line, layout_line};
use flushy::mode::{Align, Flush, Mode};

const LEFT: Mode = Mode::AlignMode(Align::Left);
const CENTER: Mode = Mode::AlignMode(Align::Center);
const RIGHT: Mode = Mode::AlignMode(Align::Right);
const FLUSH: Mode = Mode::FlushMode(Flush::Flush);
const HYPHEN: Mode = Mode::FlushMode(Flush::FlushHyphen);

#[test]
fn chunk_without_a_break_is_its_own_line() {
    for mode in [LEFT, CENTER, RIGHT, FLUSH, HYPHEN] {
        assert_eq!(format_line("abcdefgh", 8, 0, mode), "abcdefgh");
        assert_eq!(format_line("abc", 8, 0, mode), "abc");
    }
}

#[test]
fn left_keeps_what_stands_before_the_break() {
    assert_eq!(format_line("ab cdefg", 8, 2, LEFT), "ab");
    assert_eq!(format_line("ab cd ef", 8, 5, LEFT), "ab cd");
}

#[test]
fn right_fills_the_front() {
    assert_eq!(format_line("ab cdefg", 8, 2, RIGHT), "      ab");
    assert_eq!(format_line("ab cd ef", 8, 5, RIGHT), "   ab cd");
    assert_eq!(format_line("abcdefg ", 8, 7, RIGHT), " abcdefg");
}

#[test]
fn center_puts_the_odd_space_behind() {
    assert_eq!(format_line("ab cd ef", 8, 5, CENTER), " ab cd  ");
    assert_eq!(format_line("ab cdefg", 8, 2, CENTER), "   ab   ");
    assert_eq!(format_line("abcde fghij", 11, 5, CENTER), "   abcde   ");
}

#[test]
fn flush_keeps_the_chunk() {
    assert_eq!(format_line("ab cdefg", 8, 2, FLUSH), "ab cdefg");
    assert_eq!(format_line("ab cd", 8, 5, FLUSH), "ab cd");
}

#[test]
fn hyphen_replaces_a_letter_behind_a_letter() {
    assert_eq!(format_line("ab cdefg", 8, 2, HYPHEN), "ab cdef-");
}

#[test]
fn hyphen_drops_a_letter_behind_something_else() {
    assert_eq!(format_line("ab cde g", 8, 6, HYPHEN), "ab cde ");
    assert_eq!(format_line("ab cde1g", 8, 2, HYPHEN), "ab cde1");
}

#[test]
fn hyphen_keeps_a_chunk_that_ends_in_no_letter() {
    assert_eq!(format_line("ab cdef.", 8, 2, HYPHEN), "ab cdef.");
    assert_eq!(format_line("ab cdef ", 8, 7, HYPHEN), "ab cdef ");
}

#[test]
fn hyphen_keeps_a_chunk_short_of_the_width() {
    assert_eq!(format_line("ab cd", 8, 5, HYPHEN), "ab cd");
}

#[test]
fn layout_line_goes_by_what_it_is_told_of_the_letters() {
    assert_eq!(layout_line("ab 12345", 8, 2, HYPHEN, true, true), "ab 1234-");
    assert_eq!(layout_line("ab 12345", 8, 2, HYPHEN, true, false), "ab 1234");
    assert_eq!(layout_line("ab cdefg", 8, 2, HYPHEN, false, true), "ab cdefg");
    assert_eq!(layout_line("ab cdefg", 8, 2, LEFT, true, true), "ab");
    assert_eq!(layout_line("ab cd", 8, 5, HYPHEN, true, true), "ab cd");
}

#[test]
fn aligned_chunk_carries_the_unfinished_word() {
    for mode in [LEFT, CENTER, RIGHT] {
        assert_eq!(carry_over("ab cdefg", 8, 2, mode), "cdefg");
        assert_eq!(carry_over("abcdef g", 8, 6, mode), "g");
    }
}

#[test]
fn aligned_chunk_carries_nothing_without_a_break_or_behind_one() {
    for mode in [LEFT, CENTER, RIGHT] {
        assert_eq!(carry_over("abcdefgh", 8, 0, mode), "");
        assert_eq!(carry_over("abcdefg ", 8, 7, mode), "");
    }
}

#[test]
fn flush_carries_nothing() {
    assert_eq!(carry_over("ab cdefg", 8, 2, FLUSH), "");
}

#[test]
fn hyphen_carries_the_last_letter() {
    assert_eq!(carry_over("ab cdefg", 8, 2, HYPHEN), "g");
    assert_eq!(carry_over("ab cdefé", 8, 2, HYPHEN), "é");
    assert_eq!(carry_over("ab cdef1", 8, 2, HYPHEN), "");
    assert_eq!(carry_over("ab cdef ", 8, 7, HYPHEN), "");
}

#[test]
fn carry_with_goes_by_what_it_is_told_of_the_letter() {
    assert_eq!(carry_with("ab cdef1", 8, 2, HYPHEN, true), "1");
    assert_eq!(carry_with("ab cdefg", 8, 2, HYPHEN, false), "");
    assert_eq!(carry_with("ab cdefg", 8, 2, LEFT, false), "cdefg");
}
