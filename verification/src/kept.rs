//! What becomes of the characters of a logical line: wrapping takes spaces
//! out and puts padding and hyphens in, and does nothing else to the line.

use crate::chunk::{
    chunks_from, last_space_of, lemma_carried, lemma_last_space, lines_of, width_fits,
    wrap_lines, Chunk,
};
use crate::laws::{lemma_chunks_well_cut, well_cut};
use crate::layout::carried;
use crate::mode::{Align, Flush, Mode};
use crate::text::{blank, is_letter};
use vstd::prelude::*;

verus! {

/// The characters of `text` that are not spaces, in their order.
pub open spec fn without_spaces(text: Seq<char>) -> Seq<char>
    decreases text.len(),
{
    if text.len() == 0 {
        text
    } else if text[0] == ' ' {
        without_spaces(text.skip(1))
    } else {
        seq![text[0]] + without_spaces(text.skip(1))
    }
}

/// Whether `short` is `long` with some of its spaces taken out and nothing
/// else changed.
pub open spec fn spaces_removed(short: Seq<char>, long: Seq<char>) -> bool
    decreases long.len(),
{
    if long.len() == 0 {
        short.len() == 0
    } else if short.len() > 0 && short[0] == long[0] && spaces_removed(
        short.skip(1),
        long.skip(1),
    ) {
        true
    } else {
        long[0] == ' ' && spaces_removed(short, long.skip(1))
    }
}

/// The part of a chunk that the next chunk does not take up again: all of a
/// chunk short of the width, and of one that fills the width what stands
/// before the part that carries over.
pub open spec fn settled(chunk: Chunk, width: int, mode: Mode) -> Seq<char> {
    if chunk.text.len() == width {
        chunk.text.take(width - carried(chunk.text, width, chunk.last_space, mode).len())
    } else {
        chunk.text
    }
}

/// The settled parts of a sequence of chunks.
pub open spec fn settled_of(chunks: Seq<Chunk>, width: int, mode: Mode) -> Seq<Seq<char>> {
    Seq::new(chunks.len(), |i: int| settled(chunks[i], width, mode))
}

/// The characters other than spaces of two texts, one after the other.
pub proof fn lemma_without_spaces_add(a: Seq<char>, b: Seq<char>)
    ensures
        without_spaces(a + b) == without_spaces(a) + without_spaces(b),
    decreases a.len(),
{
    if a.len() > 0 {
        assert((a + b).skip(1) =~= a.skip(1) + b);
        lemma_without_spaces_add(a.skip(1), b);
    }
}

/// Padding holds nothing but spaces.
pub proof fn lemma_without_spaces_blank(n: int)
    ensures
        without_spaces(blank(n)) == Seq::<char>::empty(),
    decreases n,
{
    if n > 0 {
        assert(blank(n).skip(1) =~= blank(n - 1));
        lemma_without_spaces_blank(n - 1);
    }
}

/// A text is itself with no space taken out.
pub proof fn lemma_spaces_removed_same(text: Seq<char>)
    ensures
        spaces_removed(text, text),
    decreases text.len(),
{
    if text.len() > 0 {
        lemma_spaces_removed_same(text.skip(1));
    }
}

/// What holds of two texts holds of them behind a common beginning.
pub proof fn lemma_spaces_removed_behind(front: Seq<char>, short: Seq<char>, long: Seq<char>)
    requires
        spaces_removed(short, long),
    ensures
        spaces_removed(front + short, front + long),
    decreases front.len(),
{
    if front.len() > 0 {
        assert((front + short).skip(1) =~= front.skip(1) + short);
        assert((front + long).skip(1) =~= front.skip(1) + long);
        lemma_spaces_removed_behind(front.skip(1), short, long);
    }
}

/// One more space may be taken out in front.
pub proof fn lemma_spaces_removed_space(short: Seq<char>, long: Seq<char>)
    requires
        spaces_removed(short, long),
    ensures
        spaces_removed(short, seq![' '] + long),
{
    assert((seq![' '] + long).skip(1) =~= long);
}

/// Taking spaces out leaves the other characters as they are.
pub proof fn lemma_spaces_removed_keeps(short: Seq<char>, long: Seq<char>)
    requires
        spaces_removed(short, long),
    ensures
        without_spaces(short) == without_spaces(long),
    decreases long.len(),
{
    if long.len() > 0 {
        if short.len() > 0 && short[0] == long[0] && spaces_removed(short.skip(1), long.skip(1)) {
            lemma_spaces_removed_keeps(short.skip(1), long.skip(1));
        } else {
            lemma_spaces_removed_keeps(short, long.skip(1));
        }
    }
}

/// A beginning that loses at most the space behind it, in front of texts of
/// which one is the other with spaces taken out.
proof fn lemma_spaces_removed_step(
    kept: Seq<char>,
    taken: Seq<char>,
    short: Seq<char>,
    long: Seq<char>,
)
    requires
        spaces_removed(short, long),
        taken == kept || taken == kept + seq![' '],
    ensures
        spaces_removed(kept + short, taken + long),
{
    if taken == kept {
        lemma_spaces_removed_behind(kept, short, long);
    } else {
        lemma_spaces_removed_space(short, long);
        lemma_spaces_removed_behind(kept, short, seq![' '] + long);
        assert(kept + (seq![' '] + long) =~= taken + long);
    }
}

/// The texts of a sequence read one after the other, the first of them
/// apart.
proof fn lemma_flatten_first(first: Seq<char>, others: Seq<Seq<char>>)
    ensures
        (seq![first] + others).flatten() == first + others.flatten(),
{
    assert((seq![first] + others).drop_first() =~= others);
}

/// Texts that agree one by one in their characters other than spaces agree
/// in them when read one after the other.
proof fn lemma_without_spaces_flatten(a: Seq<Seq<char>>, b: Seq<Seq<char>>)
    requires
        a.len() == b.len(),
        forall|i: int| 0 <= i < a.len() ==> without_spaces(#[trigger] a[i]) == without_spaces(b[i]),
    ensures
        without_spaces(a.flatten()) == without_spaces(b.flatten()),
    decreases a.len(),
{
    if a.len() > 0 {
        let a_rest = a.drop_first();
        let b_rest = b.drop_first();
        assert forall|i: int| 0 <= i < a_rest.len() implies without_spaces(#[trigger] a_rest[i])
            == without_spaces(b_rest[i]) by {
            assert(a_rest[i] == a[i + 1] && b_rest[i] == b[i + 1]);
        }
        lemma_without_spaces_flatten(a_rest, b_rest);
        lemma_without_spaces_add(a.first(), a_rest.flatten());
        lemma_without_spaces_add(b.first(), b_rest.flatten());
    }
}

/// A chunk that fills the width is its settled part followed by what it
/// carries over.
pub proof fn lemma_chunk_splits(chunk: Chunk, width: int, mode: Mode)
    requires
        width_fits(width, mode),
        well_cut(chunk, width),
        chunk.text.len() == width,
    ensures
        settled(chunk, width, mode) + carried(chunk.text, width, chunk.last_space, mode)
            == chunk.text,
{
    lemma_last_space(chunk.text);
}

/// The output line of a chunk, in left alignment and in flush, is the
/// settled part of the chunk, but for the space at which the chunk breaks.
proof fn lemma_plain_line(chunk: Chunk, width: int, mode: Mode)
    requires
        width >= 1,
        well_cut(chunk, width),
        mode == Mode::AlignMode(Align::Left) || mode == Mode::FlushMode(Flush::Flush),
    ensures
        settled(chunk, width, mode) == chunk.line(width, mode) || settled(chunk, width, mode)
            == chunk.line(width, mode) + seq![' '],
{
    lemma_last_space(chunk.text);
}

/// In every mode but flush with hyphenation, the output line of a chunk and
/// its settled part differ in spaces only.
proof fn lemma_line_keeps(chunk: Chunk, width: int, mode: Mode)
    requires
        width_fits(width, mode),
        well_cut(chunk, width),
        mode != Mode::FlushMode(Flush::FlushHyphen),
    ensures
        without_spaces(chunk.line(width, mode)) == without_spaces(settled(chunk, width, mode)),
{
    lemma_last_space(chunk.text);
    let ls = chunk.last_space;
    let text = chunk.text;
    if text.len() == width && ls == 0 {
        assert(text.take(width) =~= text);
    } else if mode is AlignMode {
        let kept = text.take(ls);
        let lead = if mode == Mode::AlignMode(Align::Center) {
            (width - ls) / 2
        } else if mode == Mode::AlignMode(Align::Right) {
            width - ls
        } else {
            0
        };
        let trail = if mode == Mode::AlignMode(Align::Center) {
            width - lead - ls
        } else {
            0
        };
        lemma_without_spaces_blank(lead);
        lemma_without_spaces_blank(trail);
        lemma_without_spaces_add(blank(lead) + kept, blank(trail));
        lemma_without_spaces_add(blank(lead), kept);
        if text.len() == width {
            assert(settled(chunk, width, mode) =~= kept + seq![' ']);
            lemma_spaces_removed_same(kept);
            lemma_spaces_removed_step(kept, kept + seq![' '], Seq::empty(), Seq::empty());
            lemma_spaces_removed_keeps(kept, kept + seq![' ']);
        } else {
            assert(kept =~= text);
        }
    } else if text.len() == width {
        assert(text.take(width) =~= text);
    }
}

/// The settled parts of the chunks of a line, read one after the other, are
/// the line with some of its spaces taken out.
proof fn lemma_parts_remove_spaces(pending: Seq<char>, rest: Seq<char>, width: int, mode: Mode)
    requires
        width_fits(width, mode),
        pending.len() < width,
    ensures
        spaces_removed(
            settled_of(chunks_from(pending, rest, width, mode), width, mode).flatten(),
            pending + rest,
        ),
    decreases rest.len(),
{
    let need = width - pending.len();
    let chunks = chunks_from(pending, rest, width, mode);
    let parts = settled_of(chunks, width, mode);
    if pending.len() == 0 && rest.len() > 0 && rest[0] == ' ' {
        lemma_parts_remove_spaces(pending, rest.skip(1), width, mode);
        lemma_spaces_removed_space(parts.flatten(), rest.skip(1));
    } else if need <= rest.len() {
        let text = pending + rest.take(need);
        let first = Chunk { text, last_space: last_space_of(text) };
        let carry = carried(text, width, first.last_space, mode);
        let after = rest.skip(need);
        let others = chunks_from(carry, after, width, mode);
        lemma_carried(text, width, mode);
        lemma_parts_remove_spaces(carry, after, width, mode);
        lemma_chunk_splits(first, width, mode);
        let part = settled(first, width, mode);
        let other_parts = settled_of(others, width, mode);
        assert(parts =~= seq![part] + other_parts);
        lemma_flatten_first(part, other_parts);
        lemma_spaces_removed_behind(part, other_parts.flatten(), carry + after);
        assert(text + after =~= pending + rest);
        assert(part + (carry + after) =~= (part + carry) + after);
    } else if pending.len() + rest.len() > 0 {
        let text = pending + rest;
        assert(parts =~= seq![text] + Seq::<Seq<char>>::empty());
        lemma_flatten_first(text, Seq::empty());
        lemma_spaces_removed_same(text);
    }
}

/// The output lines of left alignment and of flush, read one after the
/// other, are the line with some of its spaces taken out.
proof fn lemma_lines_remove_spaces(pending: Seq<char>, rest: Seq<char>, width: int, mode: Mode)
    requires
        width >= 1,
        pending.len() < width,
        mode == Mode::AlignMode(Align::Left) || mode == Mode::FlushMode(Flush::Flush),
    ensures
        spaces_removed(
            lines_of(chunks_from(pending, rest, width, mode), width, mode).flatten(),
            pending + rest,
        ),
    decreases rest.len(),
{
    let need = width - pending.len();
    let chunks = chunks_from(pending, rest, width, mode);
    let lines = lines_of(chunks, width, mode);
    if pending.len() == 0 && rest.len() > 0 && rest[0] == ' ' {
        lemma_lines_remove_spaces(pending, rest.skip(1), width, mode);
        lemma_spaces_removed_space(lines.flatten(), rest.skip(1));
    } else if need <= rest.len() {
        let text = pending + rest.take(need);
        let first = Chunk { text, last_space: last_space_of(text) };
        let carry = carried(text, width, first.last_space, mode);
        let after = rest.skip(need);
        let others = chunks_from(carry, after, width, mode);
        lemma_carried(text, width, mode);
        lemma_lines_remove_spaces(carry, after, width, mode);
        lemma_chunk_splits(first, width, mode);
        lemma_plain_line(first, width, mode);
        let line = first.line(width, mode);
        let part = settled(first, width, mode);
        let other_lines = lines_of(others, width, mode);
        assert(lines =~= seq![line] + other_lines);
        lemma_flatten_first(line, other_lines);
        lemma_spaces_removed_step(line, part, other_lines.flatten(), carry + after);
        assert(text + after =~= pending + rest);
        assert(part + (carry + after) =~= (part + carry) + after);
    } else if pending.len() + rest.len() > 0 {
        let only = Chunk { text: pending + rest, last_space: (pending + rest).len() as int };
        lemma_plain_line(only, width, mode);
        assert(lines =~= seq![only.text] + Seq::<Seq<char>>::empty());
        lemma_flatten_first(only.text, Seq::empty());
        lemma_spaces_removed_same(only.text);
    }
}

/// Left alignment and flush change a line by taking spaces out of it and in
/// no other way: the output lines, read one after the other, are the line
/// without the spaces at which it was broken or which stood in front of a
/// chunk. No character is dropped, added or moved.
pub proof fn lemma_only_spaces_removed(line: Seq<char>, width: int, mode: Mode)
    requires
        width >= 1,
        mode == Mode::AlignMode(Align::Left) || mode == Mode::FlushMode(Flush::Flush),
    ensures
        spaces_removed(wrap_lines(line, width, mode).flatten(), line),
{
    lemma_lines_remove_spaces(Seq::empty(), line, width, mode);
}

/// In every mode but flush with hyphenation, wrapping keeps every character
/// of the line that is not a space, in its place among the others, and adds
/// none: the output lines, read one after the other, differ from the line in
/// spaces only.
pub proof fn lemma_keeps_characters(line: Seq<char>, width: int, mode: Mode)
    requires
        width >= 1,
        mode != Mode::FlushMode(Flush::FlushHyphen),
    ensures
        without_spaces(wrap_lines(line, width, mode).flatten()) == without_spaces(line),
{
    let chunks = chunks_from(Seq::empty(), line, width, mode);
    let lines = wrap_lines(line, width, mode);
    let parts = settled_of(chunks, width, mode);
    lemma_chunks_well_cut(Seq::empty(), line, width, mode);
    assert forall|i: int| 0 <= i < lines.len() implies without_spaces(#[trigger] lines[i])
        == without_spaces(parts[i]) by {
        lemma_line_keeps(chunks[i], width, mode);
    }
    lemma_without_spaces_flatten(lines, parts);
    lemma_parts_remove_spaces(Seq::empty(), line, width, mode);
    lemma_spaces_removed_keeps(parts.flatten(), line);
}

/// Flush with hyphenation loses no character either. The settled parts of
/// the chunks, read one after the other, are the line with some of its
/// spaces taken out, and every output line is the settled part of its chunk,
/// followed at most by one character: a hyphen where a word is split, or,
/// where the chunk has no space at all, the letter that ends it, which the
/// next chunk takes up again.
pub proof fn lemma_hyphenation_keeps_characters(line: Seq<char>, width: int)
    requires
        width >= 2,
    ensures
        ({
            let mode = Mode::FlushMode(Flush::FlushHyphen);
            let chunks = chunks_from(Seq::empty(), line, width, mode);
            let lines = wrap_lines(line, width, mode);
            let parts = settled_of(chunks, width, mode);
            &&& lines.len() == parts.len()
            &&& spaces_removed(parts.flatten(), line)
            &&& forall|i: int|
                0 <= i < lines.len() ==> {
                    ||| #[trigger] lines[i] == parts[i]
                    ||| lines[i] == parts[i].push('-')
                    ||| chunks[i].last_space == 0 && is_letter(chunks[i].text.last()) && lines[i]
                        == parts[i].push(chunks[i].text.last())
                }
        }),
{
    let mode = Mode::FlushMode(Flush::FlushHyphen);
    let chunks = chunks_from(Seq::empty(), line, width, mode);
    let lines = wrap_lines(line, width, mode);
    let parts = settled_of(chunks, width, mode);
    lemma_parts_remove_spaces(Seq::empty(), line, width, mode);
    lemma_chunks_well_cut(Seq::empty(), line, width, mode);
    assert forall|i: int| 0 <= i < lines.len() implies {
        ||| #[trigger] lines[i] == parts[i]
        ||| lines[i] == parts[i].push('-')
        ||| chunks[i].last_space == 0 && is_letter(chunks[i].text.last()) && lines[i]
            == parts[i].push(chunks[i].text.last())
    } by {
        lemma_last_space(chunks[i].text);
    }
}

} // verus!
