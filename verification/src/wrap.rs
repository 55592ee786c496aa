//! Wrapping one logical line.

use crate::chunk::{chunks_from, lines_of, width_fits, wrap_lines, wrapped_text};
use crate::laws::{lemma_blank_line, lemma_lines_fill_width};
use crate::mode::{Align, Flush, Mode};
use crate::scan::{lemma_last_line, lemma_step, Scanner};
use crate::text::{join_with, texts};
use vstd::prelude::*;

verus! {

/// Wraps one logical line to `col` columns and returns the output lines.
///
/// The line is read character by character. Spaces in front of an empty
/// chunk are dropped; every other character joins the chunk, and a chunk that
/// reaches `col` characters is rendered and replaced by what it carries over.
/// What is gathered at the end of the line is the last output line.
pub fn wrap(line: &str, col: usize, mode: Mode) -> (out: Vec<String>)
    requires
        width_fits(col as int, mode),
    ensures
        texts(out@) == wrap_lines(line@, col as int, mode),
        line@.len() == 0 ==> out@.len() == 0,
        forall|i: int| 0 <= i < out@.len() ==> 1 <= (#[trigger] out@[i])@.len() <= col,
        mode == Mode::AlignMode(Align::Center) || mode == Mode::AlignMode(Align::Right)
            ==> forall|i: int| 0 <= i < out@.len() ==> (#[trigger] out@[i])@.len() == col,
        mode == Mode::FlushMode(Flush::Flush) ==> forall|i: int|
            0 <= i < out@.len() - 1 ==> (#[trigger] out@[i])@.len() == col,
        mode == Mode::FlushMode(Flush::FlushHyphen) ==> forall|i: int|
            0 <= i < out@.len() - 1 ==> (#[trigger] out@[i])@.len() >= col - 1,
{
    let mut out: Vec<String> = Vec::new();
    let mut scanner = Scanner::new(col, mode);
    assert(line@.skip(0) =~= line@);
    for c in it: line.chars()
        invariant
            it.seq() == line@,
            scanner.inv(),
            scanner.width() == col,
            scanner.mode() == mode,
            texts(out@) + lines_of(
                chunks_from(scanner.pending(), line@.skip(it.index()), col as int, mode),
                col as int,
                mode,
            ) == wrap_lines(line@, col as int, mode),
    {
        proof {
            let rest = line@.skip(it.index() + 1);
            scanner.lemma_inv();
            assert(line@.skip(it.index()) =~= seq![c] + rest);
            lemma_step(scanner.pending(), c, rest, col as int, mode);
        }
        if let Some(full) = scanner.feed(c) {
            out.push(full);
        }
    }
    proof {
        scanner.lemma_inv();
        lemma_last_line(scanner.pending(), col as int, mode);
    }
    if let Some(tail) = scanner.finish() {
        out.push(tail);
    }
    proof {
        lemma_lines_fill_width(line@, col as int, mode);
        if line@.len() == 0 {
            lemma_blank_line(line@, col as int, mode);
        }
        assert forall|i: int| 0 <= i < out@.len() implies (#[trigger] out@[i])@ == wrap_lines(
            line@,
            col as int,
            mode,
        )[i] by {
            assert(texts(out@)[i] == out@[i]@);
        }
    }
    out
}

/// Wraps one logical line to `col` columns and returns the output lines as
/// one text, with a newline between each two and none at the end.
pub fn format(line: &str, col: usize, mode: Mode) -> (out: String)
    requires
        width_fits(col as int, mode),
    ensures
        out@ == wrapped_text(line@, col as int, mode),
        line@.len() == 0 ==> out@.len() == 0,
{
    let lines = wrap(line, col, mode);
    join_with(&lines, '\n')
}

} // verus!
