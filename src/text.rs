use vstd::prelude::*;
use vstd::std_specs::iter::IteratorSpec;

verus! {

broadcast use vstd::string::axiom_spec_iter, vstd::string::next_postcondition;

/// Space, tab and the line-end characters.
pub open spec fn is_blank_char(c: char) -> bool {
    c == ' ' || c == '\t' || c == '\r' || c == '\n'
}

pub fn blank_char(c: char) -> (r: bool)
    ensures
        r == is_blank_char(c),
{
    c == ' ' || c == '\t' || c == '\r' || c == '\n'
}

/// The characters of `s`, in order.
pub fn chars_of(s: &str) -> (r: Vec<char>)
    ensures
        r@ == s@,
{
    let mut out: Vec<char> = Vec::new();
    let mut it = s.chars();
    loop
        invariant
            it.obeys_prophetic_iter_laws(),
            it.decrease() is Some,
            out@ + it.remaining() == s@,
        ensures
            out@ == s@,
        decreases it.decrease()->0,
    {
        match it.next() {
            Some(c) => {
                out.push(c);
            },
            None => {
                assert(out@ + it.remaining() =~= out@);
                break;
            },
        }
    }
    out
}

/// The characters `l[lo..hi]` as a string.
pub fn string_of(l: &Vec<char>, lo: usize, hi: usize) -> (r: String)
    requires
        lo <= hi <= l@.len(),
    ensures
        r@ == l@.subrange(lo as int, hi as int),
{
    let mut out = String::new();
    let mut i: usize = lo;
    while i < hi
        invariant
            lo <= i <= hi <= l@.len(),
            out@ == l@.subrange(lo as int, i as int),
        decreases hi - i,
    {
        push_char(&mut out, l[i]);
        i = i + 1;
        assert(out@ =~= l@.subrange(lo as int, i as int));
    }
    out
}

/// Appends the characters of `l` to `s`.
pub fn push_chars(s: &mut String, l: &Vec<char>)
    ensures
        final(s)@ == old(s)@ + l@,
{
    let mut i: usize = 0;
    while i < l.len()
        invariant
            i <= l@.len(),
            s@ == old(s)@ + l@.take(i as int),
        decreases l.len() - i,
    {
        push_char(s, l[i]);
        i = i + 1;
        assert(s@ =~= old(s)@ + l@.take(i as int));
    }
    assert(l@.take(i as int) =~= l@);
}

/// A copy of `v`.
pub fn copy_strings(v: &Vec<String>) -> (r: Vec<String>)
    ensures
        crate::book::strings_view(r@) == crate::book::strings_view(v@),
{
    let mut out: Vec<String> = Vec::new();
    let mut i: usize = 0;
    while i < v.len()
        invariant
            i <= v@.len(),
            out@.len() == i,
            forall|j: int| 0 <= j < i ==> (#[trigger] out@[j])@ == v@[j]@,
        decreases v.len() - i,
    {
        let c: String = v[i].clone();
        out.push(c);
        i = i + 1;
    }
    assert(crate::book::strings_view(out@) =~= crate::book::strings_view(v@));
    out
}

/// Relies on String::push: the character is appended at the end.
#[verifier::external_body]
pub(crate) fn push_char(s: &mut String, c: char)
    ensures
        final(s)@ == old(s)@.push(c),
{
    s.push(c)
}

} // verus!
