//! The chunks of a logical line: what the greedy scan cuts a line into, and
//! the output lines that the chunks are rendered as.

use crate::layout::{carried, rendered};
use crate::mode::{Flush, Mode};
use crate::text::joined;
use vstd::prelude::*;

verus! {

/// A run of characters gathered for one output line, with its break
/// position.
pub ghost struct Chunk {
    pub text: Seq<char>,
    pub last_space: int,
}

impl Chunk {
    /// The output line that the chunk is rendered as.
    pub open spec fn line(self, width: int, mode: Mode) -> Seq<char> {
        rendered(self.text, width, self.last_space, mode)
    }
}

/// The position of the last space of `chunk`; zero if there is none.
pub open spec fn last_space_of(chunk: Seq<char>) -> int
    decreases chunk.len(),
{
    if chunk.len() == 0 {
        0
    } else if chunk.last() == ' ' {
        chunk.len() - 1
    } else {
        last_space_of(chunk.drop_last())
    }
}

/// The chunks that a logical line falls into, where `pending` is the part of
/// the current chunk that is already gathered and `rest` is what of the line
/// is still to be read.
///
/// Spaces in front of an empty chunk are passed over. A chunk is complete
/// when it holds `width` characters: it breaks at its last space, and what
/// the mode carries over starts the next chunk. What is left at the end of
/// the line, short of `width`, is the last chunk, with its own length as its
/// break position.
pub open spec fn chunks_from(pending: Seq<char>, rest: Seq<char>, width: int, mode: Mode) -> Seq<
    Chunk,
>
    decreases rest.len(),
{
    let need = width - pending.len();
    if pending.len() == 0 && rest.len() > 0 && rest[0] == ' ' {
        chunks_from(pending, rest.skip(1), width, mode)
    } else if 0 < need <= rest.len() {
        let text = pending + rest.take(need);
        let last_space = last_space_of(text);
        seq![Chunk { text, last_space }] + chunks_from(
            carried(text, width, last_space, mode),
            rest.skip(need),
            width,
            mode,
        )
    } else if pending.len() + rest.len() > 0 {
        seq![Chunk { text: pending + rest, last_space: (pending + rest).len() as int }]
    } else {
        Seq::empty()
    }
}

/// The output lines of a sequence of chunks.
pub open spec fn lines_of(chunks: Seq<Chunk>, width: int, mode: Mode) -> Seq<Seq<char>> {
    Seq::new(chunks.len(), |i: int| chunks[i].line(width, mode))
}

/// The output lines that the logical line `line` is wrapped into.
pub open spec fn wrap_lines(line: Seq<char>, width: int, mode: Mode) -> Seq<Seq<char>> {
    lines_of(chunks_from(Seq::empty(), line, width, mode), width, mode)
}

/// The output lines of `line` as one text, with a newline between each two
/// and none at the end.
pub open spec fn wrapped_text(line: Seq<char>, width: int, mode: Mode) -> Seq<char> {
    joined(wrap_lines(line, width, mode), '\n')
}

/// Which widths a mode can wrap to: at least one column, and two where a
/// hyphen may have to stand beside a letter.
pub open spec fn width_fits(width: int, mode: Mode) -> bool {
    width >= 1 && (mode == Mode::FlushMode(Flush::FlushHyphen) ==> width >= 2)
}

/// The break position lies inside the chunk, a space stands there unless it
/// is zero, and no space follows it.
pub proof fn lemma_last_space(chunk: Seq<char>)
    ensures
        0 <= last_space_of(chunk),
        chunk.len() > 0 ==> last_space_of(chunk) < chunk.len(),
        last_space_of(chunk) > 0 ==> chunk[last_space_of(chunk)] == ' ',
        forall|k: int| last_space_of(chunk) < k < chunk.len() ==> chunk[k] != ' ',
    decreases chunk.len(),
{
    if chunk.len() > 0 && chunk.last() != ' ' {
        let front = chunk.drop_last();
        lemma_last_space(front);
        assert forall|k: int| last_space_of(chunk) < k < chunk.len() implies chunk[k] != ' ' by {
            if k < front.len() {
                assert(front[k] == chunk[k]);
            }
        }
    }
}

/// A chunk with no space behind its first character has no break position.
pub proof fn lemma_no_break(chunk: Seq<char>)
    requires
        forall|k: int| 1 <= k < chunk.len() ==> chunk[k] != ' ',
    ensures
        last_space_of(chunk) == 0,
    decreases chunk.len(),
{
    if chunk.len() > 0 && chunk.last() != ' ' {
        lemma_no_break(chunk.drop_last());
    }
}

/// What a complete chunk carries over is shorter than the chunk and has no
/// break position of its own.
pub proof fn lemma_carried(text: Seq<char>, width: int, mode: Mode)
    requires
        text.len() == width,
        width_fits(width, mode),
    ensures
        carried(text, width, last_space_of(text), mode).len() < width,
        last_space_of(carried(text, width, last_space_of(text), mode)) == 0,
{
    lemma_last_space(text);
    lemma_no_break(carried(text, width, last_space_of(text), mode));
}

} // verus!
