//! The document container: a `ropey::Rope`, seen through the characters it holds.
use vstd::prelude::*;
use ropey::Rope;
use crate::text::{line_index, line_lens, line_start};

verus! {

#[verifier::external_type_specification]
#[verifier::external_body]
pub struct ExRope(ropey::Rope);

/// The characters that a rope holds.
pub uninterp spec fn rope_text(r: ropey::Rope) -> Seq<char>;

/// Relies on `Rope::new`: a rope with no characters.
#[verifier::external_body]
pub(crate) fn empty_rope() -> (r: Rope)
    ensures
        rope_text(r) == Seq::<char>::empty(),
{
    Rope::new()
}

/// Relies on `Rope::len_chars`: the number of characters.
#[verifier::external_body]
pub(crate) fn len_chars(r: &Rope) -> (n: usize)
    ensures
        n == rope_text(*r).len(),
{
    r.len_chars()
}

/// Relies on `Rope::len_lines`: the number of line breaks plus one.
#[verifier::external_body]
pub(crate) fn len_lines(r: &Rope) -> (n: usize)
    ensures
        n == line_lens(rope_text(*r)).len(),
{
    r.len_lines()
}

/// Relies on `Rope::char_to_line`: the number of line breaks before `i`.
#[verifier::external_body]
pub(crate) fn char_to_line(r: &Rope, i: usize) -> (n: usize)
    requires
        i <= rope_text(*r).len(),
    ensures
        n == line_index(rope_text(*r), i as int),
{
    r.char_to_line(i)
}

/// Relies on `Rope::line_to_char`: the position where line `l` starts; one past
/// the last line gives the length of the text.
#[verifier::external_body]
pub(crate) fn line_to_char(r: &Rope, l: usize) -> (n: usize)
    requires
        l <= line_lens(rope_text(*r)).len(),
    ensures
        n == line_start(line_lens(rope_text(*r)), l as int),
{
    r.line_to_char(l)
}

/// Relies on `Rope::insert_char`: `c` goes in at position `i`.
#[verifier::external_body]
pub(crate) fn insert_char(r: &mut Rope, i: usize, c: char)
    requires
        i <= rope_text(*old(r)).len(),
    ensures
        rope_text(*final(r)) == rope_text(*old(r)).insert(i as int, c),
{
    r.insert_char(i, c)
}

/// Relies on `Rope::remove`: the characters in `start..end` are taken out.
#[verifier::external_body]
pub(crate) fn remove_range(r: &mut Rope, start: usize, end: usize)
    requires
        start <= end <= rope_text(*old(r)).len(),
    ensures
        rope_text(*final(r)) == rope_text(*old(r)).subrange(0, start as int) + rope_text(
            *old(r),
        ).subrange(end as int, rope_text(*old(r)).len() as int),
{
    r.remove(start..end)
}

/// Relies on `Rope::clone`: a copy with the same characters.
#[verifier::external_body]
pub(crate) fn copy_rope(r: &Rope) -> (c: Rope)
    ensures
        rope_text(c) == rope_text(*r),
{
    r.clone()
}

/// Relies on `Rope`'s `==`: true exactly when both hold the same characters.
#[verifier::external_body]
pub(crate) fn same_text(a: &Rope, b: &Rope) -> (r: bool)
    ensures
        r == (rope_text(*a) == rope_text(*b)),
{
    a == b
}

/// Relies on `Rope::slice` and its `to_string`: the characters in `start..end`.
#[verifier::external_body]
pub(crate) fn slice_string(r: &Rope, start: usize, end: usize) -> (s: String)
    requires
        start <= end <= rope_text(*r).len(),
    ensures
        s@ == rope_text(*r).subrange(start as int, end as int),
{
    r.slice(start..end).to_string()
}

} // verus!
