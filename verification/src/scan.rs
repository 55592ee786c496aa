//! The scanner: the state of the greedy scan inside a logical line, and
//! its transitions, one for every character read and one for the end of the
//! line.

use crate::chunk::{
    chunks_from, last_space_of, lemma_carried, lemma_last_space, lines_of, width_fits,
};
use crate::layout::{carried, carry_over, format_line, rendered};
use crate::mode::Mode;
use crate::text::length;
use vstd::prelude::*;

verus! {

/// What reading one character leads to: the chunk that is gathered after it,
/// and the output line that it completes, if it completes one.
pub ghost struct Step {
    pub pending: Seq<char>,
    pub line: Option<Seq<char>>,
}

/// Reading the character `c` behind the gathered part `pending` of a chunk.
///
/// A space in front of an empty chunk is dropped. Every other character
/// joins the chunk. A chunk that reaches `width` characters is rendered as
/// an output line, and what it carries over is gathered next.
pub open spec fn step(pending: Seq<char>, c: char, width: int, mode: Mode) -> Step {
    if pending.len() == 0 && c == ' ' {
        Step { pending, line: None }
    } else {
        let text = pending.push(c);
        if text.len() == width {
            let last_space = last_space_of(text);
            Step {
                pending: carried(text, width, last_space, mode),
                line: Some(rendered(text, width, last_space, mode)),
            }
        } else {
            Step { pending: text, line: None }
        }
    }
}

/// The end of the line behind the gathered part `pending` of a chunk: what
/// is gathered is the last chunk, which breaks at its end, unless nothing is
/// gathered.
pub open spec fn last_line(pending: Seq<char>, width: int, mode: Mode) -> Option<Seq<char>> {
    if pending.len() > 0 {
        Some(rendered(pending, width, pending.len() as int, mode))
    } else {
        None
    }
}

/// The line that a step or the end of the line gives, as a sequence of one
/// line or of none.
pub open spec fn given(line: Option<Seq<char>>) -> Seq<Seq<char>> {
    match line {
        Some(line) => seq![line],
        None => Seq::empty(),
    }
}

/// Reading a line character by character gives its output lines: the lines
/// of `c` followed by `rest`, behind a gathered part, are the line that the
/// step on `c` gives, if any, followed by the lines of `rest` behind what
/// the step leaves gathered.
pub proof fn lemma_step(pending: Seq<char>, c: char, rest: Seq<char>, width: int, mode: Mode)
    requires
        width_fits(width, mode),
        pending.len() < width,
    ensures
        step(pending, c, width, mode).pending.len() < width,
        lines_of(chunks_from(pending, seq![c] + rest, width, mode), width, mode) == given(
            step(pending, c, width, mode).line,
        ) + lines_of(
            chunks_from(step(pending, c, width, mode).pending, rest, width, mode),
            width,
            mode,
        ),
{
    let all = seq![c] + rest;
    let need = width - pending.len();
    let text = pending.push(c);
    assert(all.skip(1) =~= rest);
    if pending.len() > 0 || c != ' ' {
        if text.len() == width {
            lemma_carried(text, width, mode);
            assert(pending + all.take(1) =~= text);
        } else if need <= all.len() {
            assert(pending + all.take(need) =~= text + rest.take(need - 1));
            assert(all.skip(need) =~= rest.skip(need - 1));
        } else {
            assert(pending + all =~= text + rest);
        }
    }
}

/// At the end of a line its output lines are the line that the end gives, if
/// any.
pub proof fn lemma_last_line(pending: Seq<char>, width: int, mode: Mode)
    requires
        pending.len() < width,
    ensures
        lines_of(chunks_from(pending, Seq::empty(), width, mode), width, mode) == given(
            last_line(pending, width, mode),
        ),
{
}

/// The state of the scan inside a logical line: the width and the mode that
/// it wraps to, and the chunk that it is gathering.
pub struct Scanner {
    col: usize,
    mode: Mode,
    chunk: String,
    length: usize,
    last_space: usize,
}

impl Scanner {
    /// The width that the scanner wraps to.
    pub closed spec fn width(&self) -> int {
        self.col as int
    }

    /// The mode that the scanner wraps in.
    pub closed spec fn mode(&self) -> Mode {
        self.mode
    }

    /// The part of the current chunk that is gathered.
    pub closed spec fn pending(&self) -> Seq<char> {
        self.chunk@
    }

    /// What holds of a scanner between two steps: the mode can wrap to the
    /// width, the chunk is short of the width, and the scanner knows the
    /// length and the break position of the chunk.
    pub closed spec fn inv(&self) -> bool {
        &&& width_fits(self.col as int, self.mode)
        &&& self.chunk@.len() == self.length
        &&& self.length < self.col
        &&& self.last_space == last_space_of(self.chunk@)
    }

    /// The chunk of a scanner is short of its width, and the mode can wrap
    /// to the width.
    pub proof fn lemma_inv(&self)
        requires
            self.inv(),
        ensures
            self.pending().len() < self.width(),
            width_fits(self.width(), self.mode()),
    {
    }

    /// A scanner at the beginning of a logical line.
    pub fn new(col: usize, mode: Mode) -> (scanner: Scanner)
        requires
            width_fits(col as int, mode),
        ensures
            scanner.inv(),
            scanner.width() == col,
            scanner.mode() == mode,
            scanner.pending() == Seq::<char>::empty(),
    {
        Scanner { col, mode, chunk: String::new(), length: 0, last_space: 0 }
    }

    /// The part of the current chunk that is gathered.
    pub fn chunk(&self) -> (chunk: &str)
        ensures
            chunk@ == self.pending(),
    {
        self.chunk.as_str()
    }

    /// The break position of the gathered part: the position of its last
    /// space, zero if it has none.
    pub fn last_space(&self) -> (position: usize)
        requires
            self.inv(),
        ensures
            position == last_space_of(self.pending()),
    {
        self.last_space
    }

    /// Reads one character, and returns the output line that it completes,
    /// if it completes one.
    pub fn feed(&mut self, c: char) -> (line: Option<String>)
        requires
            old(self).inv(),
        ensures
            final(self).inv(),
            final(self).width() == old(self).width(),
            final(self).mode() == old(self).mode(),
            final(self).pending() == step(
                old(self).pending(),
                c,
                old(self).width(),
                old(self).mode(),
            ).pending,
            match line {
                Some(line) => step(old(self).pending(), c, old(self).width(), old(self).mode()).line
                    == Some(line@),
                None => step(old(self).pending(), c, old(self).width(), old(self).mode()).line
                    is None,
            },
    {
        if self.length == 0 && c == ' ' {
            return None;
        }
        let ghost before = self.chunk@;
        if c == ' ' {
            self.last_space = self.length;
        }
        self.chunk.push(c);
        self.length += 1;
        assert(self.chunk@.drop_last() =~= before);
        if self.length == self.col {
            proof {
                lemma_last_space(self.chunk@);
                lemma_carried(self.chunk@, self.col as int, self.mode);
            }
            let line = format_line(self.chunk.as_str(), self.col, self.last_space, self.mode);
            let next = carry_over(self.chunk.as_str(), self.col, self.last_space, self.mode);
            self.length = length(next.as_str());
            self.chunk = next;
            self.last_space = 0;
            Some(line)
        } else {
            None
        }
    }

    /// Ends the logical line, and returns the output line of what is
    /// gathered, if anything is.
    pub fn finish(self) -> (line: Option<String>)
        requires
            self.inv(),
        ensures
            match line {
                Some(line) => last_line(self.pending(), self.width(), self.mode()) == Some(line@),
                None => last_line(self.pending(), self.width(), self.mode()) is None,
            },
    {
        if self.length > 0 {
            Some(format_line(self.chunk.as_str(), self.col, self.length, self.mode))
        } else {
            None
        }
    }
}

} // verus!
