//! Whole texts: every line of a text wrapped by itself, or the lines of each
//! paragraph run together and wrapped as one.

use crate::chunk::{width_fits, wrapped_text};
use crate::mode::Mode;
use crate::text::{join_with, joined, texts};
use vstd::prelude::*;

verus! {

/// The text that wrapping every line by itself gives: the output lines of
/// each line, every one of them ended by a newline. A line without output
/// lines still gives one newline.
pub open spec fn lines_text(lines: Seq<Seq<char>>, width: int, mode: Mode) -> Seq<char>
    decreases lines.len(),
{
    if lines.len() == 0 {
        Seq::empty()
    } else {
        lines_text(lines.drop_last(), width, mode) + wrapped_text(lines.last(), width, mode)
            + seq!['\n']
    }
}

/// The text that wrapping by paragraphs gives, where `pending` holds the
/// lines of the paragraph that is being gathered and `lines` is what of the
/// text is still to be read.
///
/// Lines that are not empty gather into a paragraph. An empty line ends the
/// paragraph: its lines are joined by single spaces and wrapped as one
/// logical line, and an empty line follows them. At the end of the text a
/// paragraph that no empty line has ended is wrapped too, with one newline
/// behind it.
pub open spec fn paragraphs_text(
    pending: Seq<Seq<char>>,
    lines: Seq<Seq<char>>,
    width: int,
    mode: Mode,
) -> Seq<char>
    decreases lines.len(),
{
    if lines.len() == 0 {
        if pending.len() > 0 {
            wrapped_text(joined(pending, ' '), width, mode) + seq!['\n']
        } else {
            Seq::empty()
        }
    } else if lines[0].len() == 0 {
        wrapped_text(joined(pending, ' '), width, mode) + seq!['\n', '\n'] + paragraphs_text(
            Seq::empty(),
            lines.skip(1),
            width,
            mode,
        )
    } else {
        paragraphs_text(pending.push(lines[0]), lines.skip(1), width, mode)
    }
}

/// Wraps every line of a text by itself and returns the text that results,
/// each output line ended by a newline.
pub fn format_lines(lines: &Vec<String>, col: usize, mode: Mode) -> (out: String)
    requires
        width_fits(col as int, mode),
    ensures
        out@ == lines_text(texts(lines@), col as int, mode),
{
    let mut out = String::new();
    let mut i: usize = 0;
    while i < lines.len()
        invariant
            width_fits(col as int, mode),
            i <= lines.len(),
            out@ == lines_text(texts(lines@).take(i as int), col as int, mode),
        decreases lines.len() - i,
    {
        let wrapped = crate::wrap::format(lines[i].as_str(), col, mode);
        out.append(wrapped.as_str());
        out.push('\n');
        proof {
            let upto = texts(lines@).take(i + 1);
            assert(upto.drop_last() =~= texts(lines@).take(i as int));
        }
        i += 1;
    }
    assert(texts(lines@).take(lines.len() as int) =~= texts(lines@));
    out
}

/// Wraps a text paragraph by paragraph and returns the text that results.
/// Paragraphs are runs of lines that are not empty; an empty line ends one.
pub fn format_paragraphs(lines: &Vec<String>, col: usize, mode: Mode) -> (out: String)
    requires
        width_fits(col as int, mode),
    ensures
        out@ == paragraphs_text(Seq::empty(), texts(lines@), col as int, mode),
{
    let mut out = String::new();
    let mut pending: Vec<String> = Vec::new();
    let mut i: usize = 0;
    assert(texts(lines@).skip(0) =~= texts(lines@));
    assert(texts(pending@) =~= Seq::<Seq<char>>::empty());
    while i < lines.len()
        invariant
            width_fits(col as int, mode),
            i <= lines.len(),
            out@ + paragraphs_text(
                texts(pending@),
                texts(lines@).skip(i as int),
                col as int,
                mode,
            ) == paragraphs_text(Seq::empty(), texts(lines@), col as int, mode),
        decreases lines.len() - i,
    {
        let ghost gathered = texts(pending@);
        let ghost rest = texts(lines@).skip(i as int);
        assert(rest.skip(1) =~= texts(lines@).skip(i + 1));
        if lines[i].as_str().is_empty() {
            let paragraph = join_with(&pending, ' ');
            let wrapped = crate::wrap::format(paragraph.as_str(), col, mode);
            out.append(wrapped.as_str());
            out.push('\n');
            out.push('\n');
            pending = Vec::new();
            assert(texts(pending@) =~= Seq::<Seq<char>>::empty());
        } else {
            pending.push(lines[i].clone());
            assert(texts(pending@) =~= gathered.push(rest[0]));
        }
        i += 1;
    }
    if pending.len() > 0 {
        let paragraph = join_with(&pending, ' ');
        let wrapped = crate::wrap::format(paragraph.as_str(), col, mode);
        out.append(wrapped.as_str());
        out.push('\n');
    }
    out
}

/// An empty line parts a text: what stands before it, the empty line
/// included, and what stands behind it are wrapped apart, and nothing of one
/// paragraph reaches into the next.
pub proof fn lemma_paragraphs_apart(
    pending: Seq<Seq<char>>,
    before: Seq<Seq<char>>,
    behind: Seq<Seq<char>>,
    width: int,
    mode: Mode,
)
    ensures
        paragraphs_text(pending, before + seq![Seq::<char>::empty()] + behind, width, mode)
            == paragraphs_text(pending, before + seq![Seq::<char>::empty()], width, mode)
            + paragraphs_text(Seq::empty(), behind, width, mode),
    decreases before.len(),
{
    let blank_line = seq![Seq::<char>::empty()];
    let whole = before + blank_line + behind;
    let front = before + blank_line;
    if before.len() == 0 {
        assert(whole.skip(1) =~= behind);
        assert(paragraphs_text(Seq::empty(), front.skip(1), width, mode) =~= Seq::<char>::empty());
    } else {
        assert(whole.skip(1) =~= before.skip(1) + blank_line + behind);
        assert(front.skip(1) =~= before.skip(1) + blank_line);
        if before[0].len() == 0 {
            lemma_paragraphs_apart(Seq::empty(), before.skip(1), behind, width, mode);
        } else {
            lemma_paragraphs_apart(pending.push(before[0]), before.skip(1), behind, width, mode);
        }
    }
}

/// A run of lines that are not empty is one paragraph: joined by single
/// spaces, behind the lines that are already gathered, it is wrapped as one
/// logical line. An empty line behind it puts an empty line behind the
/// paragraph; at the end of the text the paragraph ends in one newline.
pub proof fn lemma_one_paragraph(
    pending: Seq<Seq<char>>,
    lines: Seq<Seq<char>>,
    width: int,
    mode: Mode,
)
    requires
        forall|i: int| 0 <= i < lines.len() ==> (#[trigger] lines[i]).len() > 0,
    ensures
        paragraphs_text(pending, lines + seq![Seq::<char>::empty()], width, mode) == wrapped_text(
            joined(pending + lines, ' '),
            width,
            mode,
        ) + seq!['\n', '\n'],
        pending.len() + lines.len() > 0 ==> paragraphs_text(pending, lines, width, mode)
            == wrapped_text(joined(pending + lines, ' '), width, mode) + seq!['\n'],
    decreases lines.len(),
{
    let ended = lines + seq![Seq::<char>::empty()];
    if lines.len() == 0 {
        assert(paragraphs_text(Seq::empty(), ended.skip(1), width, mode) =~= Seq::<char>::empty());
    } else {
        let after = lines.skip(1);
        assert(ended.skip(1) =~= after + seq![Seq::<char>::empty()]);
        assert(pending.push(lines[0]) + after =~= pending + lines);
        assert forall|i: int| 0 <= i < after.len() implies (#[trigger] after[i]).len() > 0 by {
            assert(after[i] == lines[i + 1]);
        }
        lemma_one_paragraph(pending.push(lines[0]), after, width, mode);
    }
}

} // verus!
