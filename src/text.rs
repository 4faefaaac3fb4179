//! Mathematical model of a document's logical lines.
//!
//! A document is a sequence of characters. Line breaks are `'\n'` only. Each
//! logical line counts its terminating newline, so a text with `k` newlines has
//! `k + 1` lines and only the last one may be empty.
use vstd::prelude::*;

verus! {

/// Sum of a sequence of lengths.
pub open spec fn total(s: Seq<nat>) -> nat
    decreases s.len(),
{
    if s.len() == 0 {
        0
    } else {
        total(s.drop_last()) + s.last()
    }
}

/// Number of newline characters in `t`.
pub open spec fn newlines(t: Seq<char>) -> nat
    decreases t.len(),
{
    if t.len() == 0 {
        0
    } else {
        newlines(t.drop_last()) + if t.last() == '\n' { 1nat } else { 0nat }
    }
}

/// Lengths of the logical lines of `t`, each counting its own newline.
pub open spec fn line_lens(t: Seq<char>) -> Seq<nat>
    decreases t.len(),
{
    if t.len() == 0 {
        seq![0nat]
    } else {
        let p = line_lens(t.drop_last());
        let grown = p.update(p.len() - 1, p.last() + 1);
        if t.last() == '\n' {
            grown.push(0nat)
        } else {
            grown
        }
    }
}

/// Index of the logical line that holds position `i`: the newlines before it.
pub open spec fn line_index(t: Seq<char>, i: int) -> nat {
    newlines(t.take(i))
}

/// Position of the first character of line `l`.
pub open spec fn line_start(lens: Seq<nat>, l: int) -> nat {
    total(lens.take(l))
}

pub proof fn lemma_total_step(s: Seq<nat>, k: int)
    requires
        0 <= k < s.len(),
    ensures
        total(s.take(k + 1)) == total(s.take(k)) + s[k],
{
    assert(s.take(k + 1).drop_last() =~= s.take(k));
}

/// The line lengths: at least one line, one per newline plus one, summing to
/// the length of the text, every line but the last one non-empty.
pub proof fn lemma_line_lens(t: Seq<char>)
    ensures
        line_lens(t).len() == newlines(t) + 1,
        total(line_lens(t)) == t.len(),
        forall|l: int| 0 <= l < line_lens(t).len() - 1 ==> line_lens(t)[l] >= 1,
    decreases t.len(),
{
    if t.len() == 0 {
        assert(seq![0nat].drop_last() =~= Seq::<nat>::empty());
        assert(total(seq![0nat]) == total(Seq::<nat>::empty()) + 0);
    } else {
        let p = line_lens(t.drop_last());
        lemma_line_lens(t.drop_last());
        let grown = p.update(p.len() - 1, p.last() + 1);
        assert(grown.drop_last() =~= p.drop_last());
        assert(grown.last() == p.last() + 1);
        assert(total(grown) == total(grown.drop_last()) + grown.last());
        assert(total(p) == total(p.drop_last()) + p.last());
        assert(total(grown) == total(p) + 1);
        if t.last() == '\n' {
            assert(grown.push(0nat).drop_last() =~= grown);
            assert(total(grown.push(0nat)) == total(grown));
        } else {
            assert(line_lens(t) == grown);
        }
    }
}

/// The lines of a prefix of `t` agree with those of `t`, but for the last line
/// of the prefix, which may be cut short.
proof fn lemma_line_lens_prefix(t: Seq<char>, i: int)
    requires
        0 <= i <= t.len(),
    ensures
        ({
            let a = line_lens(t.take(i));
            let b = line_lens(t);
            &&& a.len() <= b.len()
            &&& a.drop_last() == b.take(a.len() - 1)
            &&& a.last() <= b[a.len() - 1]
        }),
    decreases t.len(),
{
    lemma_line_lens(t.take(i));
    lemma_line_lens(t);
    if i == t.len() {
        assert(t.take(i) =~= t);
        assert(line_lens(t).drop_last() =~= line_lens(t).take(line_lens(t).len() - 1));
    } else {
        let u = t.drop_last();
        assert(u.take(i) =~= t.take(i));
        lemma_line_lens_prefix(u, i);
        lemma_line_lens(u);
        let a = line_lens(t.take(i));
        let p = line_lens(u);
        let b = line_lens(t);
        let grown = p.update(p.len() - 1, p.last() + 1);
        assert(a.drop_last() =~= b.take(a.len() - 1));
    }
}

/// A position lies within the line that `line_index` names.
pub proof fn lemma_line_of_position(t: Seq<char>, i: int)
    requires
        0 <= i <= t.len(),
    ensures
        line_index(t, i) < line_lens(t).len(),
        line_start(line_lens(t), line_index(t, i) as int) <= i,
        i <= line_start(line_lens(t), line_index(t, i) as int) + line_lens(t)[line_index(
            t,
            i,
        ) as int],
{
    let a = line_lens(t.take(i));
    let b = line_lens(t);
    lemma_line_lens(t.take(i));
    lemma_line_lens_prefix(t, i);
    let l = a.len() - 1;
    assert(a.drop_last() =~= a.take(l));
    assert(b.take(l) == a.take(l));
    assert(total(a) == total(a.drop_last()) + a.last());
}

} // verus!
