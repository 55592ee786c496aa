//! Character-level helpers on strings. Lengths and positions count
//! characters.

use vstd::prelude::*;

verus! {

/// Whether a character is a letter in the sense of the standard library's
/// `char::is_alphabetic`, that is, whether it has the Unicode property
/// `Alphabetic`. The property is a table of the Unicode character database;
/// nothing is stated of it here beyond its being a function of the character.
pub uninterp spec fn is_letter(c: char) -> bool;

/// `char::is_alphabetic` of the standard library: the answer depends on the
/// character alone, and `is_letter` is the name under which contracts speak
/// of it.
pub assume_specification[ char::is_alphabetic ](c: char) -> (b: bool)
    ensures
        b == is_letter(c),
;

/// `String::push` of the standard library appends the given character to the
/// end of the string and leaves the characters before it as they were.
pub assume_specification[ String::push ](s: &mut String, c: char)
    ensures
        final(s)@ == old(s)@.push(c),
;

/// `n` spaces; none where `n` is not positive.
pub open spec fn blank(n: int) -> Seq<char> {
    Seq::new(if n > 0 { n as nat } else { 0 }, |i: int| ' ')
}

/// The number of characters of `x`.
pub fn length(x: &str) -> (n: usize)
    ensures
        n == x@.len(),
{
    x.unicode_len()
}

/// A string of `n` spaces.
pub fn blanks(n: usize) -> (out: String)
    ensures
        out@ == blank(n as int),
{
    let mut out = String::new();
    let mut i: usize = 0;
    while i < n
        invariant
            i <= n,
            out@ == blank(i as int),
        decreases n - i,
    {
        out.push(' ');
        i += 1;
    }
    out
}

/// Whether two strings hold the same characters.
pub fn same_text(a: &str, b: &str) -> (same: bool)
    ensures
        same == (a@ == b@),
{
    let n = length(a);
    if n != length(b) {
        return false;
    }
    let mut i: usize = 0;
    while i < n
        invariant
            i <= n,
            n == a@.len(),
            n == b@.len(),
            forall|k: int| 0 <= k < i ==> a@[k] == b@[k],
        decreases n - i,
    {
        if a.get_char(i) != b.get_char(i) {
            return false;
        }
        i += 1;
    }
    assert(a@ =~= b@);
    true
}

/// The characters of each string of a sequence.
pub open spec fn texts(lines: Seq<String>) -> Seq<Seq<char>> {
    Seq::new(lines.len(), |i: int| lines[i]@)
}

/// The texts joined into one, with `sep` between each two.
pub open spec fn joined(lines: Seq<Seq<char>>, sep: char) -> Seq<char>
    decreases lines.len(),
{
    if lines.len() == 0 {
        Seq::empty()
    } else if lines.len() == 1 {
        lines[0]
    } else {
        joined(lines.drop_last(), sep) + seq![sep] + lines.last()
    }
}

/// Joins strings into one, with `sep` between each two.
pub fn join_with(lines: &Vec<String>, sep: char) -> (out: String)
    ensures
        out@ == joined(texts(lines@), sep),
{
    let mut out = String::new();
    let mut i: usize = 0;
    while i < lines.len()
        invariant
            i <= lines.len(),
            out@ == joined(texts(lines@).take(i as int), sep),
        decreases lines.len() - i,
    {
        if i > 0 {
            out.push(sep);
        }
        out.append(lines[i].as_str());
        proof {
            let upto = texts(lines@).take(i + 1);
            assert(upto.drop_last() =~= texts(lines@).take(i as int));
        }
        i += 1;
    }
    assert(texts(lines@).take(lines.len() as int) =~= texts(lines@));
    out
}

} // verus!
