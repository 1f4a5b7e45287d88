//! Tokenizing line and block comments.

use crate::scan::{
    byte_in_set, count_newlines, in_set, lemma_seek_in_props, lemma_seek_not_unique, seek_in,
    ByteSet,
};
use crate::text::lossy_to_string;
use crate::token::parse::ParseRes;
use crate::token::rules::{last_not_ws, spec_block_end, spec_comment, trim_bytes};
use crate::token::Token;
use vstd::prelude::*;

verus! {

pub(crate) proof fn lemma_last_not_ws_props(s: Seq<u8>)
    ensures
        -1 <= last_not_ws(s) < s.len(),
        last_not_ws(s) >= 0 ==> !in_set(ByteSet::Ws, s[last_not_ws(s)]),
        forall|j: int| last_not_ws(s) < j < s.len() ==> in_set(ByteSet::Ws, s[j]),
    decreases s.len(),
{
    if s.len() > 0 && in_set(ByteSet::Ws, s.last()) {
        lemma_last_not_ws_props(s.drop_last());
        assert forall|j: int| last_not_ws(s) < j < s.len() implies in_set(ByteSet::Ws, s[j]) by {
            if j < s.len() - 1 {
                assert(s.drop_last()[j] == s[j]);
            }
        }
    }
}

pub(crate) proof fn lemma_last_not_ws_unique(s: Seq<u8>, x: int)
    requires
        -1 <= x < s.len(),
        x >= 0 ==> !in_set(ByteSet::Ws, s[x]),
        forall|j: int| x < j < s.len() ==> in_set(ByteSet::Ws, s[j]),
    ensures
        last_not_ws(s) == x,
{
    lemma_last_not_ws_props(s);
    let r = last_not_ws(s);
    if r < x {
        assert(in_set(ByteSet::Ws, s[x]));
    }
    if x < r {
        assert(in_set(ByteSet::Ws, s[r]));
    }
}

/// The sub-region of `buf[a..b)` left after trimming ASCII whitespace from
/// both ends.
pub(crate) fn trim_range(buf: &[u8], a: usize, b: usize) -> (r: (usize, usize))
    requires
        a <= b <= buf@.len(),
    ensures
        a <= r.0 <= r.1 <= b,
        buf@.subrange(r.0 as int, r.1 as int) == trim_bytes(buf@.subrange(a as int, b as int)),
{
    let ghost sub = buf@.subrange(a as int, b as int);
    let mut i: usize = a;
    while i < b && byte_in_set(ByteSet::Ws, buf[i])
        invariant
            a <= i <= b <= buf@.len(),
            forall|j: int| a <= j < i ==> in_set(ByteSet::Ws, buf@[j]),
        decreases b - i,
    {
        i = i + 1;
    }
    if i == b {
        proof {
            assert(forall|j: int| 0 <= j < sub.len() ==> sub[j] == buf@[a + j]);
            crate::scan::lemma_seek_not_unique(sub, 0, sub.len() as int, ByteSet::Ws);
            assert(trim_bytes(sub) =~= buf@.subrange(b as int, b as int));
        }
        return (b, b);
    }
    let mut j: usize = b;
    while j > i && byte_in_set(ByteSet::Ws, buf[j - 1])
        invariant
            a <= i <= j <= b <= buf@.len(),
            forall|k: int| j <= k < b ==> in_set(ByteSet::Ws, buf@[k]),
            i < b,
            !in_set(ByteSet::Ws, buf@[i as int]),
        decreases j,
    {
        j = j - 1;
    }
    proof {
        assert(forall|k: int| 0 <= k < sub.len() ==> sub[k] == buf@[a + k]);
        crate::scan::lemma_seek_not_unique(sub, 0, i - a, ByteSet::Ws);
        lemma_last_not_ws_unique(sub, j - a - 1);
        assert(trim_bytes(sub) =~= buf@.subrange(i as int, j as int));
    }
    (i, j)
}

/// Scan for the end of the block comment opened just before `from`
/// (nesting starts at level zero); yields the index after the closing
/// `*/`, or nothing when the buffer runs out first.
fn block_end(buf: &[u8], from: usize) -> (r: Option<usize>)
    requires
        from <= buf@.len(),
    ensures
        match r {
            Some(e) => spec_block_end(buf@, from as int, 0) == Some(e as int) && from + 2 <= e
                <= buf@.len(),
            None => spec_block_end(buf@, from as int, 0) is None,
        },
{
    let mut end: usize = from;
    let mut level: usize = 0;
    loop
        invariant
            from <= end <= buf@.len(),
            level <= end,
            spec_block_end(buf@, from as int, 0) == spec_block_end(buf@, end as int, level as int),
        decreases buf@.len() - end,
    {
        let j = seek_in(buf, end, ByteSet::CommentMark);
        proof {
            lemma_seek_in_props(buf@, end as int, ByteSet::CommentMark);
        }
        if j >= buf.len() {
            return None;
        }
        if j + 1 < buf.len() && buf[j] == 42 && buf[j + 1] == 47 {
            if level == 0 {
                return Some(j + 2);
            }
            level = level - 1;
            end = j + 2;
        } else if j + 1 < buf.len() && buf[j] == 47 && buf[j + 1] == 42 {
            level = level + 1;
            end = j + 2;
        } else {
            end = j + 1;
        }
    }
}

/// Tokenize the comment opened by the `/` at `start`, when one is opened:
/// `//` runs to the end of the line, `/*` to its balancing `*/`.
pub fn parse_comment(buf: &[u8], start: usize) -> (r: Option<ParseRes>)
    requires
        start < buf@.len(),
        buf@.len() < usize::MAX - 4,
        buf@[start as int] == 47,
    ensures
        match r {
            Some(res) => res@ == spec_comment(buf@, start as int) && (start + 1 < buf@.len() && (
            buf@[start as int + 1] == 47 || buf@[start as int + 1] == 42)) && (res@.token is Ok
                ==> res.len <= buf@.len() && res.range.0 <= res.range.1 <= buf@.len()
                && res.range.0 <= res.len),
            None => !(start + 1 < buf@.len() && (buf@[start as int + 1] == 47 || buf@[start as int
                + 1] == 42)),
        },
{
    if start + 1 < buf.len() && buf[start + 1] == 47 {
        let c0 = start + 2;
        let e = seek_in(buf, c0, ByteSet::Nl);
        proof {
            lemma_seek_in_props(buf@, c0 as int, ByteSet::Nl);
        }
        let content_end = if e < buf.len() && e > c0 && buf[e - 1] == 13 {
            e - 1
        } else {
            e
        };
        let (t0, t1) = trim_range(buf, c0, content_end);
        let text = lossy_to_string(vstd::slice::slice_subrange(buf, t0, t1));
        Some(
            ParseRes {
                len: content_end,
                range: (start, content_end),
                lines: 0,
                token: Ok(Token::Comment(text)),
            },
        )
    } else if start + 1 < buf.len() && buf[start + 1] == 42 {
        match block_end(buf, start + 2) {
            Some(e) => {
                let lines = count_newlines(buf, start, e);
                let (t0, t1) = trim_range(buf, start + 2, e - 2);
                let text = lossy_to_string(vstd::slice::slice_subrange(buf, t0, t1));
                Some(
                    ParseRes {
                        len: e,
                        range: (start, e),
                        lines,
                        token: Ok(Token::Comment(text)),
                    },
                )
            },
            None => {
                let e = crate::scan::sat_add(buf.len(), 1);
                Some(
                    ParseRes {
                        len: e,
                        range: (buf.len(), e),
                        lines: 0,
                        token: Err(crate::error::TokenError::MissingCommentTerminator),
                    },
                )
            },
        }
    } else {
        None
    }
}

} // verus!
