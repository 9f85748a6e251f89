use vstd::prelude::*;
use crate::text::is_blank_char;

verus! {

// The line grammar of a document.
//
// A heading is one or more `#`, a space, and the heading's text; the number of
// `#` is its depth. A block opens with a line that starts with three backticks,
// followed by the function's name and, after one space, an optional
// interpreter; it closes with a line that is exactly three backticks. Any other
// non-blank line outside a block is descriptive text.

/// The index of the first character at or after `i` that is not `#`.
pub open spec fn hashes_from(l: Seq<char>, i: int) -> int
    decreases l.len() - i,
{
    if 0 <= i < l.len() && l[i] == '#' {
        hashes_from(l, i + 1)
    } else {
        i
    }
}

/// The index of the first space at or after `i`, or the length of the line.
pub open spec fn word_end(l: Seq<char>, i: int) -> int
    decreases l.len() - i,
{
    if 0 <= i < l.len() && l[i] != ' ' {
        word_end(l, i + 1)
    } else {
        i
    }
}

pub open spec fn is_fence(l: Seq<char>) -> bool {
    l.len() >= 3 && l[0] == '`' && l[1] == '`' && l[2] == '`'
}

pub open spec fn is_close(l: Seq<char>) -> bool {
    is_fence(l) && l.len() == 3
}

pub open spec fn is_heading(l: Seq<char>) -> bool {
    let h = hashes_from(l, 0);
    1 <= h < l.len() && l[h] == ' '
}

pub open spec fn heading_depth(l: Seq<char>) -> usize {
    hashes_from(l, 0) as usize
}

pub open spec fn heading_text(l: Seq<char>) -> Seq<char> {
    l.subrange(hashes_from(l, 0) + 1, l.len() as int)
}

pub open spec fn is_blank_line(l: Seq<char>) -> bool {
    forall|j: int| 0 <= j < l.len() ==> is_blank_char(#[trigger] l[j])
}

/// An opening line names the function, and at most one interpreter word after a single space.
pub open spec fn header_ok(l: Seq<char>) -> bool {
    let e = word_end(l, 3);
    e > 3 && (e == l.len() || (e + 1 < l.len() && word_end(l, e + 1) == l.len()))
}

pub open spec fn header_name(l: Seq<char>) -> Seq<char> {
    l.subrange(3, word_end(l, 3))
}

pub open spec fn header_tag(l: Seq<char>) -> Option<Seq<char>> {
    let e = word_end(l, 3);
    if e >= l.len() {
        None
    } else {
        Some(l.subrange(e + 1, l.len() as int))
    }
}

pub fn hashes(l: &Vec<char>) -> (r: usize)
    ensures
        r == hashes_from(l@, 0),
        r <= l@.len(),
{
    let mut i: usize = 0;
    while i < l.len() && l[i] == '#'
        invariant
            i <= l@.len(),
            hashes_from(l@, i as int) == hashes_from(l@, 0),
        decreases l.len() - i,
    {
        i = i + 1;
    }
    i
}

pub fn word_end_at(l: &Vec<char>, start: usize) -> (r: usize)
    requires
        start <= l@.len(),
    ensures
        r == word_end(l@, start as int),
        start <= r <= l@.len(),
{
    let mut i: usize = start;
    while i < l.len() && l[i] != ' '
        invariant
            start <= i <= l@.len(),
            word_end(l@, i as int) == word_end(l@, start as int),
        decreases l.len() - i,
    {
        i = i + 1;
    }
    i
}

pub fn line_is_fence(l: &Vec<char>) -> (r: bool)
    ensures
        r == is_fence(l@),
{
    l.len() >= 3 && l[0] == '`' && l[1] == '`' && l[2] == '`'
}

pub fn line_is_blank(l: &Vec<char>) -> (r: bool)
    ensures
        r == is_blank_line(l@),
{
    let mut i: usize = 0;
    while i < l.len()
        invariant
            i <= l@.len(),
            forall|j: int| 0 <= j < i ==> is_blank_char(#[trigger] l@[j]),
        decreases l.len() - i,
    {
        if !crate::text::blank_char(l[i]) {
            return false;
        }
        i = i + 1;
    }
    true
}

} // verus!
