//! Byte classification and scanning primitives used by the tokenizer.
//!
//! The tokenizer classifies bytes into small sets (blanks, identifier
//! characters, and so on) and repeatedly needs "the first index from `i`
//! whose byte is (not) in the set".  Both directions are provided here as
//! verified loops whose results equal the recursive spec functions below,
//! so the token model can be stated over those spec functions.

use vstd::prelude::*;

verus! {

/// The byte sets the classification rules refer to.
#[derive(Clone, Copy, PartialEq, Eq, Structural, Debug)]
pub enum ByteSet {
    /// Space and tab: skipped in front of every token.
    Blank,
    /// Carriage return, newline, space, tab: the run consumed after a newline.
    NlBlank,
    /// `A`-`Z`, `a`-`z`, `0`-`9`, `_`, `-`: bytes that may continue an identifier.
    IdentTail,
    /// `0`-`9`, `-`, `.`, `_`: bytes that may continue a number literal.
    NumTail,
    /// `a`-`z`, `0`-`9`, `-`, `_`: bytes that may form a string-tag name.
    TagTail,
    /// Backslash, double quote, newline: the bytes that end a basic-string scan step.
    StrStop,
    /// `/` and `*`: the bytes that matter inside a block comment.
    CommentMark,
    /// `#` alone: the prefix of a tagged string.
    Hash,
    /// `\n` alone: a line terminator.
    Nl,
    /// ASCII whitespace: what gets trimmed off comment bodies.
    Ws,
    /// A backslash alone: the escape introducer.
    Bslash,
    /// A closing curly brace alone: the end of a unicode escape.
    RBrace,
}

pub open spec fn in_set(set: ByteSet, b: u8) -> bool {
    match set {
        ByteSet::Blank => b == 32 || b == 9,
        ByteSet::NlBlank => b == 13 || b == 10 || b == 32 || b == 9,
        ByteSet::IdentTail => (65 <= b <= 90) || (97 <= b <= 122) || (48 <= b <= 57) || b == 95
            || b == 45,
        ByteSet::NumTail => (48 <= b <= 57) || b == 45 || b == 46 || b == 95,
        ByteSet::TagTail => (97 <= b <= 122) || (48 <= b <= 57) || b == 45 || b == 95,
        ByteSet::StrStop => b == 92 || b == 34 || b == 10,
        ByteSet::CommentMark => b == 47 || b == 42,
        ByteSet::Hash => b == 35,
        ByteSet::Nl => b == 10,
        ByteSet::Ws => b == 32 || b == 9 || b == 10 || b == 12 || b == 13,
        ByteSet::Bslash => b == 92,
        ByteSet::RBrace => b == 125,
    }
}

/// Executable membership test for the byte sets.
pub fn byte_in_set(set: ByteSet, b: u8) -> (r: bool)
    ensures
        r == in_set(set, b),
{
    match set {
        ByteSet::Blank => b == 32 || b == 9,
        ByteSet::NlBlank => b == 13 || b == 10 || b == 32 || b == 9,
        ByteSet::IdentTail => (65 <= b && b <= 90) || (97 <= b && b <= 122) || (48 <= b && b
            <= 57) || b == 95 || b == 45,
        ByteSet::NumTail => (48 <= b && b <= 57) || b == 45 || b == 46 || b == 95,
        ByteSet::TagTail => (97 <= b && b <= 122) || (48 <= b && b <= 57) || b == 45 || b == 95,
        ByteSet::StrStop => b == 92 || b == 34 || b == 10,
        ByteSet::CommentMark => b == 47 || b == 42,
        ByteSet::Hash => b == 35,
        ByteSet::Nl => b == 10,
        ByteSet::Ws => b == 32 || b == 9 || b == 10 || b == 12 || b == 13,
        ByteSet::Bslash => b == 92,
        ByteSet::RBrace => b == 125,
    }
}

/// First index at or after `i` whose byte is not in `set`; the length of `s`
/// when every byte from `i` on is in `set`.
pub open spec fn spec_seek_not(s: Seq<u8>, i: int, set: ByteSet) -> int
    decreases s.len() - i,
{
    if i < 0 {
        i
    } else if i >= s.len() {
        s.len() as int
    } else if !in_set(set, s[i]) {
        i
    } else {
        spec_seek_not(s, i + 1, set)
    }
}

/// First index at or after `i` whose byte is in `set`; the length of `s`
/// when no byte from `i` on is in `set`.
pub open spec fn spec_seek_in(s: Seq<u8>, i: int, set: ByteSet) -> int
    decreases s.len() - i,
{
    if i < 0 {
        i
    } else if i >= s.len() {
        s.len() as int
    } else if in_set(set, s[i]) {
        i
    } else {
        spec_seek_in(s, i + 1, set)
    }
}

pub proof fn lemma_seek_not_props(s: Seq<u8>, i: int, set: ByteSet)
    requires
        0 <= i <= s.len(),
    ensures
        i <= spec_seek_not(s, i, set) <= s.len(),
        forall|j: int| i <= j < spec_seek_not(s, i, set) ==> in_set(set, s[j]),
        spec_seek_not(s, i, set) < s.len() ==> !in_set(set, s[spec_seek_not(s, i, set)]),
    decreases s.len() - i,
{
    if i < s.len() && in_set(set, s[i]) {
        lemma_seek_not_props(s, i + 1, set);
    }
}

pub proof fn lemma_seek_in_props(s: Seq<u8>, i: int, set: ByteSet)
    requires
        0 <= i <= s.len(),
    ensures
        i <= spec_seek_in(s, i, set) <= s.len(),
        forall|j: int| i <= j < spec_seek_in(s, i, set) ==> !in_set(set, s[j]),
        spec_seek_in(s, i, set) < s.len() ==> in_set(set, s[spec_seek_in(s, i, set)]),
    decreases s.len() - i,
{
    if i < s.len() && !in_set(set, s[i]) {
        lemma_seek_in_props(s, i + 1, set);
    }
}

/// First index at or after `from` whose byte lies outside `set` (or the
/// buffer's length).
pub fn seek_not(buf: &[u8], from: usize, set: ByteSet) -> (r: usize)
    requires
        from <= buf@.len(),
    ensures
        r == spec_seek_not(buf@, from as int, set),
{
    let mut i: usize = from;
    while i < buf.len()
        invariant
            from <= i <= buf@.len(),
            spec_seek_not(buf@, from as int, set) == spec_seek_not(buf@, i as int, set),
        decreases buf@.len() - i,
    {
        if !byte_in_set(set, buf[i]) {
            return i;
        }
        proof {
            assert(spec_seek_not(buf@, i as int, set) == spec_seek_not(buf@, i + 1, set));
        }
        i = i + 1;
    }
    i
}

/// First index at or after `from` whose byte lies inside `set` (or the
/// buffer's length).
pub fn seek_in(buf: &[u8], from: usize, set: ByteSet) -> (r: usize)
    requires
        from <= buf@.len(),
    ensures
        r == spec_seek_in(buf@, from as int, set),
{
    let mut i: usize = from;
    while i < buf.len()
        invariant
            from <= i <= buf@.len(),
            spec_seek_in(buf@, from as int, set) == spec_seek_in(buf@, i as int, set),
        decreases buf@.len() - i,
    {
        if byte_in_set(set, buf[i]) {
            return i;
        }
        proof {
            assert(spec_seek_in(buf@, i as int, set) == spec_seek_in(buf@, i + 1, set));
        }
        i = i + 1;
    }
    i
}

/// A cut that skips exactly the bytes of `set` is where `spec_seek_not`
/// stops.
pub proof fn lemma_seek_not_unique(s: Seq<u8>, i: int, x: int, set: ByteSet)
    requires
        0 <= i <= x <= s.len(),
        forall|j: int| i <= j < x ==> in_set(set, s[j]),
        x == s.len() || !in_set(set, s[x]),
    ensures
        spec_seek_not(s, i, set) == x,
{
    lemma_seek_not_props(s, i, set);
    let r = spec_seek_not(s, i, set);
    if r < x {
        assert(in_set(set, s[r]));
    }
    if x < r {
        assert(in_set(set, s[x]));
    }
}


/// `x` capped at the largest machine size; error-path lengths that would
/// overshoot the buffer saturate here.
pub open spec fn cap_usize(x: int) -> int {
    if x > usize::MAX {
        usize::MAX as int
    } else {
        x
    }
}

/// Saturating addition on machine sizes.
pub fn sat_add(a: usize, b: usize) -> (r: usize)
    ensures
        r == cap_usize(a + b),
{
    if a <= usize::MAX - b {
        a + b
    } else {
        usize::MAX
    }
}

/// Number of newline bytes in `s`.
pub open spec fn count_nl(s: Seq<u8>) -> int
    decreases s.len(),
{
    if s.len() == 0 {
        0
    } else {
        count_nl(s.drop_last()) + if s.last() == 10u8 {
            1int
        } else {
            0int
        }
    }
}

pub proof fn lemma_count_nl_bounds(s: Seq<u8>)
    ensures
        0 <= count_nl(s) <= s.len(),
    decreases s.len(),
{
    if s.len() > 0 {
        lemma_count_nl_bounds(s.drop_last());
    }
}

/// Number of newline bytes in `buf[a..b]`.
pub fn count_newlines(buf: &[u8], a: usize, b: usize) -> (r: usize)
    requires
        a <= b <= buf@.len(),
    ensures
        r == count_nl(buf@.subrange(a as int, b as int)),
{
    proof {
        lemma_count_nl_bounds(buf@.subrange(a as int, b as int));
    }
    let mut i: usize = a;
    let mut n: usize = 0;
    while i < b
        invariant
            a <= i <= b <= buf@.len(),
            n == count_nl(buf@.subrange(a as int, i as int)),
            n <= i - a,
        decreases b - i,
    {
        proof {
            assert(buf@.subrange(a as int, i + 1).drop_last() =~= buf@.subrange(
                a as int,
                i as int,
            ));
            assert(buf@.subrange(a as int, i + 1).last() == buf@[i as int]);
            lemma_count_nl_bounds(buf@.subrange(a as int, i as int));
        }
        if buf[i] == 10 {
            n = n + 1;
        }
        i = i + 1;
    }
    n
}

/// Index of the last newline byte in `s`, or `-1` when there is none.
pub open spec fn last_nl(s: Seq<u8>) -> int
    decreases s.len(),
{
    if s.len() == 0 {
        -1
    } else if s.last() == 10u8 {
        s.len() - 1
    } else {
        last_nl(s.drop_last())
    }
}

pub proof fn lemma_last_nl_props(s: Seq<u8>)
    ensures
        -1 <= last_nl(s) < s.len(),
        last_nl(s) >= 0 ==> s[last_nl(s)] == 10u8,
        forall|j: int| last_nl(s) < j < s.len() ==> s[j] != 10u8,
    decreases s.len(),
{
    if s.len() > 0 && s.last() != 10u8 {
        lemma_last_nl_props(s.drop_last());
        assert forall|j: int| last_nl(s) < j < s.len() implies s[j] != 10u8 by {
            if j < s.len() - 1 {
                assert(s.drop_last()[j] == s[j]);
            }
        }
    }
}

/// The column of position `pos` in `data`: the distance from the byte after
/// the last newline before `pos` (or from the start of the file).
pub open spec fn col_of(data: Seq<u8>, pos: int) -> int {
    pos - 1 - last_nl(data.subrange(0, pos))
}

/// Column of `pos`, scanning backward for the preceding newline.
pub fn col_at(data: &[u8], pos: usize) -> (r: usize)
    requires
        pos <= data@.len(),
    ensures
        r == col_of(data@, pos as int),
{
    proof {
        lemma_last_nl_props(data@.subrange(0, pos as int));
    }
    let mut i: usize = pos;
    while i > 0
        invariant
            0 <= i <= pos <= data@.len(),
            forall|j: int| i <= j < pos ==> data@[j] != 10u8,
        decreases i,
    {
        if data[i - 1] == 10 {
            proof {
                let s = data@.subrange(0, pos as int);
                lemma_last_nl_props(s);
                assert(s[i - 1] == 10u8);
                assert(forall|j: int| i <= j < pos ==> s[j] != 10u8);
                if last_nl(s) != i - 1 {
                    if last_nl(s) > i - 1 {
                        assert(s[last_nl(s)] == 10u8);
                    }
                }
                assert(last_nl(s) == i - 1);
            }
            return pos - i;
        }
        i = i - 1;
    }
    proof {
        let s = data@.subrange(0, pos as int);
        lemma_last_nl_props(s);
        if last_nl(s) >= 0 {
            assert(s[last_nl(s)] == 10u8);
        }
        assert(last_nl(s) == -1);
    }
    pos
}

} // verus!
