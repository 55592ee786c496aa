//! What holds of the output lines of every logical line: how many there
//! are, how long they are and how they begin.

use crate::chunk::{
    chunks_from, last_space_of, lemma_carried, lemma_last_space, width_fits, wrap_lines, Chunk,
};
use crate::layout::{carried, rendered};
use crate::mode::{Align, Flush, Mode};
use crate::text::{blank, is_letter};
use vstd::prelude::*;

verus! {

/// A chunk as the scan cuts it: it holds at least one character and at most
/// `width`; one that fills the width breaks at its last space, a shorter one
/// at its end.
pub open spec fn well_cut(chunk: Chunk, width: int) -> bool {
    &&& 1 <= chunk.text.len() <= width
    &&& chunk.last_space == if chunk.text.len() == width {
        last_space_of(chunk.text)
    } else {
        chunk.text.len() as int
    }
}

/// Every chunk of a line is well cut, and every chunk but the last fills the
/// width.
pub proof fn lemma_chunks_well_cut(pending: Seq<char>, rest: Seq<char>, width: int, mode: Mode)
    requires
        width_fits(width, mode),
        pending.len() < width,
    ensures
        forall|i: int|
            0 <= i < chunks_from(pending, rest, width, mode).len() ==> well_cut(
                #[trigger] chunks_from(pending, rest, width, mode)[i],
                width,
            ),
        forall|i: int|
            0 <= i < chunks_from(pending, rest, width, mode).len() - 1 ==> (#[trigger] chunks_from(
                pending,
                rest,
                width,
                mode,
            )[i]).text.len() == width,
    decreases rest.len(),
{
    let need = width - pending.len();
    let chunks = chunks_from(pending, rest, width, mode);
    if pending.len() == 0 && rest.len() > 0 && rest[0] == ' ' {
        lemma_chunks_well_cut(pending, rest.skip(1), width, mode);
        assert(chunks == chunks_from(pending, rest.skip(1), width, mode));
    } else if need <= rest.len() {
        let text = pending + rest.take(need);
        let carry = carried(text, width, last_space_of(text), mode);
        let others = chunks_from(carry, rest.skip(need), width, mode);
        lemma_carried(text, width, mode);
        lemma_chunks_well_cut(carry, rest.skip(need), width, mode);
        assert forall|i: int| 0 <= i < chunks.len() implies well_cut(
            #[trigger] chunks[i],
            width,
        ) by {
            if i > 0 {
                assert(chunks[i] == others[i - 1]);
            }
        }
        assert forall|i: int| 0 <= i < chunks.len() - 1 implies (#[trigger] chunks[i]).text.len()
            == width by {
            if i > 0 {
                assert(chunks[i] == others[i - 1]);
            }
        }
    }
}

/// Whether flush with hyphenation leaves the line of a chunk one short of
/// the width: the letter that ends the chunk leaves the line, and no hyphen
/// takes its place, since no letter stands before it.
pub open spec fn loses_letter(chunk: Chunk) -> bool {
    chunk.last_space > 0 && is_letter(chunk.text.last()) && !is_letter(
        chunk.text[chunk.text.len() - 2],
    )
}

/// How long the output line of a chunk that fills the width is: as long as
/// the width, with two exceptions. Left alignment ends the line at the break
/// position, and flush with hyphenation may take the last letter away
/// without putting a hyphen in its place.
pub open spec fn full_line_len(chunk: Chunk, width: int, mode: Mode) -> int {
    match mode {
        Mode::AlignMode(Align::Left) => if chunk.last_space == 0 {
            width
        } else {
            chunk.last_space
        },
        Mode::FlushMode(Flush::FlushHyphen) => if loses_letter(chunk) {
            width - 1
        } else {
            width
        },
        _ => width,
    }
}

/// How long the output line of a well-cut chunk is.
///
/// No line is empty or longer than the width. Centered and right-aligned
/// lines are padded to the width. The line of a chunk that fills the width
/// is as long as `full_line_len` says, and a chunk without a break position
/// is its own line. A chunk short of the width is its own line in the modes
/// that do not pad.
pub proof fn lemma_line_length(chunk: Chunk, width: int, mode: Mode)
    requires
        width_fits(width, mode),
        well_cut(chunk, width),
    ensures
        0 <= chunk.last_space <= chunk.text.len(),
        1 <= chunk.line(width, mode).len() <= width,
        mode == Mode::AlignMode(Align::Center) || mode == Mode::AlignMode(Align::Right)
            ==> chunk.line(width, mode).len() == width,
        chunk.text.len() == width ==> chunk.line(width, mode).len() == full_line_len(
            chunk,
            width,
            mode,
        ),
        chunk.text.len() == width && (chunk.last_space == 0 || mode == Mode::FlushMode(
            Flush::Flush,
        )) ==> chunk.line(width, mode) == chunk.text,
        chunk.text.len() < width && mode != Mode::AlignMode(Align::Center) && mode
            != Mode::AlignMode(Align::Right) ==> chunk.line(width, mode) == chunk.text,
{
    lemma_last_space(chunk.text);
}

/// An empty logical line has no output lines, in every mode and at every
/// width; nor has a line of spaces only.
pub proof fn lemma_blank_line(line: Seq<char>, width: int, mode: Mode)
    requires
        forall|k: int| 0 <= k < line.len() ==> line[k] == ' ',
    ensures
        wrap_lines(line, width, mode).len() == 0,
    decreases line.len(),
{
    if line.len() > 0 {
        lemma_blank_line(line.skip(1), width, mode);
    }
}

/// Every output line holds at least one character and at most `width`, and
/// every output line but the last holds exactly `width`, with two
/// exceptions: a left-aligned line ends where its chunk breaks, and a
/// hyphenated line is one short where a letter left it and no hyphen came.
/// Centered and right-aligned lines are `width` long to the last.
pub proof fn lemma_lines_fill_width(line: Seq<char>, width: int, mode: Mode)
    requires
        width_fits(width, mode),
    ensures
        ({
            let chunks = chunks_from(Seq::empty(), line, width, mode);
            let lines = wrap_lines(line, width, mode);
            &&& lines.len() == chunks.len()
            &&& forall|i: int| 0 <= i < lines.len() ==> 1 <= (#[trigger] lines[i]).len() <= width
            &&& forall|i: int|
                0 <= i < lines.len() - 1 ==> (#[trigger] lines[i]).len() == full_line_len(
                    chunks[i],
                    width,
                    mode,
                )
            &&& mode == Mode::AlignMode(Align::Center) || mode == Mode::AlignMode(Align::Right)
                ==> forall|i: int| 0 <= i < lines.len() ==> (#[trigger] lines[i]).len() == width
        }),
{
    let chunks = chunks_from(Seq::empty(), line, width, mode);
    let lines = wrap_lines(line, width, mode);
    lemma_chunks_well_cut(Seq::empty(), line, width, mode);
    assert forall|i: int| 0 <= i < lines.len() implies {
        &&& 1 <= (#[trigger] lines[i]).len() <= width
        &&& i < lines.len() - 1 ==> lines[i].len() == full_line_len(chunks[i], width, mode)
        &&& mode == Mode::AlignMode(Align::Center) || mode == Mode::AlignMode(Align::Right)
            ==> lines[i].len() == width
    } by {
        lemma_line_length(chunks[i], width, mode);
    }
}

/// A line that is shorter than the width and does not begin with a space is
/// one chunk, which breaks at its end. Left alignment and the flush modes
/// give it back as it is.
pub proof fn lemma_short_line(line: Seq<char>, width: int, mode: Mode)
    requires
        0 < line.len() < width,
        line[0] != ' ',
    ensures
        wrap_lines(line, width, mode) == seq![rendered(line, width, line.len() as int, mode)],
        mode != Mode::AlignMode(Align::Center) && mode != Mode::AlignMode(Align::Right)
            ==> wrap_lines(line, width, mode) == seq![line],
{
    assert(line.take(line.len() as int) =~= line);
}

/// A centered line is `width` long, and the padding behind it is as long as
/// the padding in front of it or longer by one.
pub proof fn lemma_center_balanced(chunk: Seq<char>, width: int, last_space: int)
    requires
        0 < last_space <= width,
        last_space <= chunk.len(),
    ensures
        rendered(chunk, width, last_space, Mode::AlignMode(Align::Center)) == blank(
            (width - last_space) / 2,
        ) + chunk.take(last_space) + blank(width - last_space - (width - last_space) / 2),
        rendered(chunk, width, last_space, Mode::AlignMode(Align::Center)).len() == width,
        0 <= (width - last_space - (width - last_space) / 2) - (width - last_space) / 2 <= 1,
{
}

/// In the modes that neither pad nor hyphenate, no chunk begins with a
/// space.
proof fn lemma_chunks_start_with_text(
    pending: Seq<char>,
    rest: Seq<char>,
    width: int,
    mode: Mode,
)
    requires
        width >= 1,
        pending.len() < width,
        pending.len() > 0 ==> pending[0] != ' ',
        mode != Mode::FlushMode(Flush::FlushHyphen),
    ensures
        forall|i: int|
            0 <= i < chunks_from(pending, rest, width, mode).len() ==> (#[trigger] chunks_from(
                pending,
                rest,
                width,
                mode,
            )[i]).text[0] != ' ',
    decreases rest.len(),
{
    let need = width - pending.len();
    let chunks = chunks_from(pending, rest, width, mode);
    if pending.len() == 0 && rest.len() > 0 && rest[0] == ' ' {
        lemma_chunks_start_with_text(pending, rest.skip(1), width, mode);
        assert(chunks == chunks_from(pending, rest.skip(1), width, mode));
    } else if need <= rest.len() {
        let text = pending + rest.take(need);
        let carry = carried(text, width, last_space_of(text), mode);
        let others = chunks_from(carry, rest.skip(need), width, mode);
        lemma_last_space(text);
        lemma_carried(text, width, mode);
        lemma_chunks_start_with_text(carry, rest.skip(need), width, mode);
        assert forall|i: int| 0 <= i < chunks.len() implies (#[trigger] chunks[i]).text[0]
            != ' ' by {
            if i > 0 {
                assert(chunks[i] == others[i - 1]);
            }
        }
    }
}

/// No output line of left alignment or of flush begins with a space.
pub proof fn lemma_lines_start_with_text(line: Seq<char>, width: int, mode: Mode)
    requires
        width >= 1,
        mode == Mode::AlignMode(Align::Left) || mode == Mode::FlushMode(Flush::Flush),
    ensures
        forall|i: int|
            0 <= i < wrap_lines(line, width, mode).len() ==> (#[trigger] wrap_lines(
                line,
                width,
                mode,
            )[i])[0] != ' ',
{
    let chunks = chunks_from(Seq::empty(), line, width, mode);
    let lines = wrap_lines(line, width, mode);
    lemma_chunks_start_with_text(Seq::empty(), line, width, mode);
    lemma_chunks_well_cut(Seq::empty(), line, width, mode);
    assert forall|i: int| 0 <= i < lines.len() implies (#[trigger] lines[i])[0] != ' ' by {
        lemma_line_length(chunks[i], width, mode);
        lemma_last_space(chunks[i].text);
    }
}

} // verus!
