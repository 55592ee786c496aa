//! The mode policy: how a chunk is rendered as an output line, and what of
//! it carries over into the next chunk.
//!
//! A chunk comes with the position of its last space, `last_space`; zero
//! stands for a chunk without a space to break at. For the unfinished chunk
//! at the end of a logical line the position is the chunk's own length.

use crate::mode::{Align, Flush, Mode};
use crate::text::{blank, blanks, is_letter, length};
use vstd::prelude::*;

verus! {

/// A chunk cut inside a word: where its last character is a letter, that
/// letter leaves the line, and a hyphen takes its place if the character
/// before it is a letter too.
pub open spec fn hyphenated(chunk: Seq<char>, last_is_letter: bool, prev_is_letter: bool) -> Seq<
    char,
> {
    if last_is_letter && chunk.len() > 0 {
        if prev_is_letter {
            chunk.drop_last().push('-')
        } else {
            chunk.drop_last()
        }
    } else {
        chunk
    }
}

/// The output line for `chunk`, given whether its last character and the one
/// before it are letters.
///
/// A chunk without a break position is its own line in every mode. The
/// aligning modes keep what stands before the break position and pad it with
/// spaces to `width`: none on the left, half of them (rounded down) on each
/// side with the odd one behind, or all of them in front. The flush modes keep
/// the chunk, and flush with hyphenation cuts a chunk that fills the width as
/// `hyphenated` says.
pub open spec fn rendered_with(
    chunk: Seq<char>,
    width: int,
    last_space: int,
    mode: Mode,
    last_is_letter: bool,
    prev_is_letter: bool,
) -> Seq<char> {
    if last_space == 0 {
        chunk
    } else {
        match mode {
            Mode::AlignMode(Align::Left) => chunk.take(last_space),
            Mode::AlignMode(Align::Center) => {
                let lead = (width - last_space) / 2;
                blank(lead) + chunk.take(last_space) + blank(width - lead - last_space)
            },
            Mode::AlignMode(Align::Right) => blank(width - last_space) + chunk.take(last_space),
            Mode::FlushMode(Flush::Flush) => chunk,
            Mode::FlushMode(Flush::FlushHyphen) => if chunk.len() == width {
                hyphenated(chunk, last_is_letter, prev_is_letter)
            } else {
                chunk
            },
        }
    }
}

/// The output line for `chunk`.
pub open spec fn rendered(chunk: Seq<char>, width: int, last_space: int, mode: Mode) -> Seq<char> {
    rendered_with(
        chunk,
        width,
        last_space,
        mode,
        is_letter(chunk.last()),
        is_letter(chunk[chunk.len() - 2]),
    )
}

/// What a chunk that fills the width hands to the next chunk, given whether
/// its last character is a letter.
///
/// The aligning modes carry the unfinished word behind the break position,
/// unless the chunk has no break position or ends in it. Flush carries
/// nothing. Flush with hyphenation carries the last character if it is a
/// letter, so that the word goes on with it.
pub open spec fn carried_with(
    chunk: Seq<char>,
    width: int,
    last_space: int,
    mode: Mode,
    last_is_letter: bool,
) -> Seq<char> {
    match mode {
        Mode::AlignMode(_) => if last_space == 0 || last_space == width - 1 {
            Seq::empty()
        } else {
            chunk.skip(last_space + 1)
        },
        Mode::FlushMode(Flush::Flush) => Seq::empty(),
        Mode::FlushMode(Flush::FlushHyphen) => if last_is_letter {
            seq![chunk.last()]
        } else {
            Seq::empty()
        },
    }
}

/// What a chunk that fills the width hands to the next chunk.
pub open spec fn carried(chunk: Seq<char>, width: int, last_space: int, mode: Mode) -> Seq<char> {
    carried_with(chunk, width, last_space, mode, is_letter(chunk.last()))
}

/// Renders one chunk as an output line, told whether the last character of
/// the chunk and the one before it are letters.
pub fn layout_line(
    line: &str,
    col: usize,
    last_space: usize,
    mode: Mode,
    last_is_letter: bool,
    prev_is_letter: bool,
) -> (out: String)
    requires
        mode is AlignMode ==> last_space <= line@.len(),
        mode == Mode::AlignMode(Align::Center) || mode == Mode::AlignMode(Align::Right)
            ==> last_space <= col,
    ensures
        out@ == rendered_with(
            line@,
            col as int,
            last_space as int,
            mode,
            last_is_letter,
            prev_is_letter,
        ),
{
    if last_space == 0 {
        return line.to_owned();
    }
    match mode {
        Mode::AlignMode(align) => {
            let kept = line.substring_char(0, last_space);
            match align {
                Align::Left => kept.to_owned(),
                Align::Center => {
                    let lead = (col - last_space) / 2;
                    let mut out = blanks(lead);
                    out.append(kept);
                    let trail = col - length(out.as_str());
                    out.append(blanks(trail).as_str());
                    out
                },
                Align::Right => {
                    let mut out = blanks(col - last_space);
                    out.append(kept);
                    out
                },
            }
        },
        Mode::FlushMode(flush) => {
            match flush {
                Flush::Flush => line.to_owned(),
                Flush::FlushHyphen => {
                    let n = length(line);
                    if n == col && n > 0 && last_is_letter {
                        let mut out = line.substring_char(0, n - 1).to_owned();
                        if prev_is_letter {
                            out.push('-');
                        }
                        out
                    } else {
                        line.to_owned()
                    }
                },
            }
        },
    }
}

/// Renders one chunk as an output line.
///
/// `line` is the chunk, `col` the width of the column and `last_space` the
/// break position: the position of the chunk's last space, zero if it has
/// none, the chunk's length for the unfinished chunk that ends a logical line.
pub fn format_line(line: &str, col: usize, last_space: usize, mode: Mode) -> (out: String)
    requires
        mode is AlignMode ==> last_space <= line@.len(),
        mode == Mode::AlignMode(Align::Center) || mode == Mode::AlignMode(Align::Right)
            ==> last_space <= col,
        mode == Mode::FlushMode(Flush::FlushHyphen) ==> col >= 2,
    ensures
        out@ == rendered(line@, col as int, last_space as int, mode),
        last_space == 0 ==> out@ == line@,
{
    let hyphens = match mode {
        Mode::FlushMode(Flush::FlushHyphen) => true,
        _ => false,
    };
    if hyphens && last_space != 0 && length(line) == col {
        let last_is_letter = line.get_char(col - 1).is_alphabetic();
        let prev_is_letter = line.get_char(col - 2).is_alphabetic();
        layout_line(line, col, last_space, mode, last_is_letter, prev_is_letter)
    } else {
        layout_line(line, col, last_space, mode, false, false)
    }
}

/// What of a chunk that fills the column starts the next chunk, told whether
/// the last character of the chunk is a letter.
pub fn carry_with(
    chunk: &str,
    col: usize,
    last_space: usize,
    mode: Mode,
    last_is_letter: bool,
) -> (out: String)
    requires
        chunk@.len() == col,
        col >= 1,
        last_space < col,
    ensures
        out@ == carried_with(chunk@, col as int, last_space as int, mode, last_is_letter),
{
    match mode {
        Mode::AlignMode(_) => {
            if last_space == 0 || last_space == col - 1 {
                String::new()
            } else {
                chunk.substring_char(last_space + 1, col).to_owned()
            }
        },
        Mode::FlushMode(flush) => {
            match flush {
                Flush::Flush => String::new(),
                Flush::FlushHyphen => {
                    let mut out = String::new();
                    if last_is_letter {
                        out.push(chunk.get_char(col - 1));
                    }
                    out
                },
            }
        },
    }
}

/// What of a chunk that fills the column starts the next chunk.
pub fn carry_over(chunk: &str, col: usize, last_space: usize, mode: Mode) -> (out: String)
    requires
        chunk@.len() == col,
        col >= 1,
        last_space < col,
    ensures
        out@ == carried(chunk@, col as int, last_space as int, mode),
{
    let last_is_letter = chunk.get_char(col - 1).is_alphabetic();
    carry_with(chunk, col, last_space, mode, last_is_letter)
}

} // verus!
