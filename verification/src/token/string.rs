//! Tokenizing basic and tagged string literals.

use crate::error::TokenError;
use crate::scan::{
    cap_usize, count_newlines, in_set, lemma_seek_in_props, lemma_seek_not_props, sat_add,
    seek_in, seek_not, ByteSet,
};
use crate::text::utf8_to_string;
use crate::token::parse::ParseRes;
use crate::token::rules::{
    spec_basic, spec_basic_scan, spec_find_sub, spec_stray, spec_tag_prefix_at, spec_tagged,
    utf8_fail_at, StrScan,
};
use crate::token::{spec_suffix_bytes, Literal, StrLit, StrTag, StrTagSuffix, Token};
use crate::types::string::ShortStr;
use vstd::prelude::*;
use vstd::utf8::partial_valid_utf8;

verus! {

/// The witness handed back by `utf8_to_string` is the unique place where a
/// buffer stops being valid UTF-8.
pub(crate) proof fn lemma_utf8_fail_unique(b: Seq<u8>, v: int)
    requires
        0 <= v <= b.len(),
        partial_valid_utf8(b, v),
        forall|j: int| v < j <= b.len() ==> !partial_valid_utf8(b, j),
    ensures
        utf8_fail_at(b) == v,
{
    let w = utf8_fail_at(b);
    assert(0 <= w <= b.len() && partial_valid_utf8(b, w) && (forall|j: int|
        w < j <= b.len() ==> !partial_valid_utf8(b, j))) by {
        assert(0 <= v <= b.len() && partial_valid_utf8(b, v) && (forall|j: int|
            v < j <= b.len() ==> !partial_valid_utf8(b, j)));
    }
    if w < v {
        assert(!partial_valid_utf8(b, v));
    }
    if v < w {
        assert(!partial_valid_utf8(b, w));
    }
}

enum ScanOut {
    Closed { quote: usize, esc: bool },
    Eol { nl: usize },
    Eof,
}

/// Scan for the end of the basic string whose opening quote sits just
/// before `from`.
fn basic_scan(buf: &[u8], from: usize) -> (r: ScanOut)
    requires
        1 <= from <= buf@.len(),
        buf@.len() < usize::MAX - 4,
    ensures
        match r {
            ScanOut::Closed { quote, esc } => spec_basic_scan(buf@, from as int, false)
                == (StrScan::Closed { quote: quote as int, esc }) && from <= quote < buf@.len(),
            ScanOut::Eol { nl } => spec_basic_scan(buf@, from as int, false) == (StrScan::Eol {
                nl: nl as int,
            }) && from <= nl < buf@.len(),
            ScanOut::Eof => spec_basic_scan(buf@, from as int, false) is Eof,
        },
{
    let mut pos: usize = from;
    let mut esc: bool = false;
    loop
        invariant
            1 <= from <= buf@.len(),
            buf@.len() < usize::MAX - 4,
            from <= pos,
            pos <= buf@.len() + 2,
            spec_basic_scan(buf@, from as int, false) == spec_basic_scan(
                buf@,
                pos as int,
                esc,
            ),
        decreases buf@.len() + 2 - pos,
    {
        if pos > buf.len() {
            return ScanOut::Eof;
        }
        let j = seek_in(buf, pos, ByteSet::StrStop);
        proof {
            lemma_seek_in_props(buf@, pos as int, ByteSet::StrStop);
        }
        if j >= buf.len() {
            return ScanOut::Eof;
        }
        if buf[j] == 34 {
            return ScanOut::Closed { quote: j, esc };
        }
        if buf[j] == 92 {
            esc = true;
            pos = j + 2;
        } else {
            return ScanOut::Eol { nl: j };
        }
    }
}

/// Decode `buf[a..b)` as the body of a string literal with the given tag:
/// the token on valid UTF-8, the not-UTF-8 error result otherwise, whose
/// range points at the first invalid byte and whose `len` is computed by
/// the caller's formula.
fn body_to_res(buf: &[u8], a: usize, b: usize, tag: StrTag, err_end: usize, ok_len: usize,
    ok_start: usize, ok_end: usize, ok_lines: usize) -> (r: ParseRes)
    requires
        a <= b <= buf@.len(),
    ensures
        vstd::utf8::valid_utf8(buf@.subrange(a as int, b as int)) ==> r@ == (crate::token::rules::SpecRes {
            len: ok_len as int,
            start: ok_start as int,
            end: ok_end as int,
            lines: ok_lines as int,
            token: Ok(
                crate::token::TokenView::LitStr(
                    crate::token::StrLitView {
                        tag,
                        value: vstd::utf8::decode_utf8(buf@.subrange(a as int, b as int)),
                    },
                ),
            ),
        }),
        !vstd::utf8::valid_utf8(buf@.subrange(a as int, b as int)) ==> ({
            &&& r.token is Err
            &&& r@.token == Result::<crate::token::TokenView, crate::error::TokenErrorView>::Err(
                crate::error::TokenErrorView::LitStrNotUtf8,
            )
            &&& r.range.0 == a + utf8_fail_at(buf@.subrange(a as int, b as int))
            &&& r.range.1 == cap_usize(r.range.0 + 1)
            &&& r.lines == 0
            &&& r.len == cap_usize(a + err_end + 2)
        }),
{
    let body = vstd::slice::slice_subrange(buf, a, b);
    match utf8_to_string(body) {
        Ok(s) => ParseRes {
            len: ok_len,
            range: (ok_start, ok_end),
            lines: ok_lines,
            token: Ok(Token::Literal(Literal::Str(StrLit { tag, value: s }))),
        },
        Err(v) => {
            proof {
                lemma_utf8_fail_unique(body@, v as int);
            }
            let ns = a + v;
            let len = sat_add(sat_add(a, err_end), 2);
            ParseRes {
                len,
                range: (ns, sat_add(ns, 1)),
                lines: 0,
                token: Err(TokenError::LitStrNotUtf8),
            }
        },
    }
}

/// Tokenize the basic string literal opened by the `"` at `start`.
pub fn parse_basic(buf: &[u8], start: usize) -> (r: ParseRes)
    requires
        start < buf@.len(),
        buf@.len() < usize::MAX - 4,
        buf@[start as int] == 34,
    ensures
        r@ == spec_basic(buf@, start as int),
        r@.token is Ok ==> r.len <= buf@.len() && r.range.0 <= r.range.1 <= buf@.len()
            && r.range.0 <= r.len,
{
    match basic_scan(buf, start + 1) {
        ScanOut::Closed { quote, esc } => {
            let tag = if esc {
                StrTag::Esc
            } else {
                StrTag::Raw
            };
            let r = body_to_res(buf, start + 1, quote, tag, quote, quote + 1, start, quote + 1, 0);
            proof {
                assert(cap_usize((start + 1) + quote + 2) == cap_usize(start + quote + 3));
            }
            r
        },
        ScanOut::Eol { nl } => ParseRes {
            len: nl + 1,
            range: (nl, nl + 1),
            lines: 0,
            token: Err(TokenError::MissingStringTerminator),
        },
        ScanOut::Eof => ParseRes {
            len: buf.len(),
            range: (buf.len(), buf.len()),
            lines: 0,
            token: Err(TokenError::MissingStringTerminator),
        },
    }
}

/// Whether `pat` occurs at index `at` of `buf`.
fn match_at(buf: &[u8], at: usize, pat: &[u8]) -> (r: bool)
    requires
        at + pat@.len() <= buf@.len(),
    ensures
        r == (buf@.subrange(at as int, at + pat@.len()) == pat@),
{
    let bl = buf.len();
    let n = pat.len();
    let mut i: usize = 0;
    while i < n
        invariant
            n == pat@.len(),
            at + n <= buf@.len(),
            buf@.len() <= usize::MAX,
            i <= n,
            forall|j: int| 0 <= j < i ==> buf@[at + j] == pat@[j],
        decreases n - i,
    {
        if buf[at + i] != pat[i] {
            proof {
                assert(buf@.subrange(at as int, at + pat@.len())[i as int] != pat@[i as int]);
            }
            return false;
        }
        i = i + 1;
    }
    proof {
        assert(buf@.subrange(at as int, at + pat@.len()) =~= pat@);
    }
    true
}

/// First occurrence of `pat` in `buf` at or after `from`.
fn find_sub(buf: &[u8], from: usize, pat: &[u8]) -> (r: Option<usize>)
    requires
        pat@.len() >= 1,
    ensures
        match r {
            Some(i) => spec_find_sub(buf@, from as int, pat@) == Some(i as int) && from <= i && i
                + pat@.len() <= buf@.len(),
            None => spec_find_sub(buf@, from as int, pat@) is None,
        },
{
    let mut i: usize = from;
    loop
        invariant
            from <= i,
            pat@.len() >= 1,
            spec_find_sub(buf@, from as int, pat@) == spec_find_sub(buf@, i as int, pat@),
        decreases buf@.len() + pat@.len() - i,
    {
        if i >= buf.len() || pat.len() > buf.len() - i {
            return None;
        }
        if match_at(buf, i, pat) {
            return Some(i);
        }
        i = i + 1;
    }
}

/// Tokenize the tagged string literal opened by the `#` run at `start`,
/// when a known tag follows; `None` leaves the stray `#` to the caller.
pub fn parse_tagged(buf: &[u8], start: usize) -> (r: Option<ParseRes>)
    requires
        start < buf@.len(),
        buf@.len() < usize::MAX - 4,
        buf@[start as int] == 35,
    ensures
        match r {
            Some(res) => res@ == spec_tagged(buf@, start as int) && (res@.token is Ok ==> res.len
                <= buf@.len() && res.range.0 <= res.range.1 <= buf@.len() && res.range.0
                <= res.len),
            None => spec_tagged(buf@, start as int) == spec_stray(buf@, start as int, '#'),
        },
{
    let he = seek_not(buf, start, ByteSet::Hash);
    proof {
        lemma_seek_not_props(buf@, start as int, ByteSet::Hash);
        assert(he > start) by {
            if he == start {
                assert(!in_set(ByteSet::Hash, buf@[start as int]));
            }
        }
    }
    if he >= buf.len() {
        return None;
    }
    let h = he - start;
    let pos = he;
    // Does one of the three known tags follow?
    let tag: Option<StrTag> = if pos + 4 <= buf.len() && buf[pos] == 114 && buf[pos + 1] == 97
        && buf[pos + 2] == 119 && buf[pos + 3] == 34 {
        Some(StrTag::Raw)
    } else if pos + 4 <= buf.len() && buf[pos] == 101 && buf[pos + 1] == 115 && buf[pos + 2] == 99
        && buf[pos + 3] == 34 {
        Some(StrTag::Esc)
    } else if pos + 4 <= buf.len() && buf[pos] == 116 && buf[pos + 1] == 120 && buf[pos + 2] == 116
        && buf[pos + 3] == 34 {
        Some(StrTag::Txt)
    } else {
        None
    };
    proof {
        assert(spec_tag_prefix_at(buf@, pos as int) == tag);
    }
    match tag {
        Some(tag) => {
            let p2 = pos + 4;
            // The terminator: a quote followed by as many hashes as opened.
            let mut pat: Vec<u8> = Vec::new();
            pat.push(34);
            let mut k: usize = 0;
            while k < h
                invariant
                    k <= h,
                    pat@.len() == k + 1,
                    pat@ =~= spec_suffix_bytes(h as int).subrange(0, k + 1),
                decreases h - k,
            {
                pat.push(35);
                k = k + 1;
            }
            proof {
                assert(pat@ =~= spec_suffix_bytes(h as int));
            }
            match find_sub(buf, p2, pat.as_slice()) {
                Some(f) => {
                    let end = f + h + 1;
                    let lines = count_newlines(buf, start, end);
                    Some(body_to_res(buf, p2, f, tag, end, end, start, end, lines))
                },
                None => {
                    let suffix = StrTagSuffix::new(h);
                    Some(
                        ParseRes {
                            len: buf.len(),
                            range: (buf.len(), buf.len()),
                            lines: 0,
                            token: Err(
                                TokenError::MissingTaggedStringTerminator { tag, suffix },
                            ),
                        },
                    )
                },
            }
        },
        None => {
            let e = seek_not(buf, pos, ByteSet::TagTail);
            proof {
                lemma_seek_not_props(buf@, pos as int, ByteSet::TagTail);
            }
            if e >= buf.len() {
                return None;
            }
            if buf[e] == 34 {
                proof {
                    assert(forall|j: int|
                        pos <= j < e ==> in_set(ByteSet::TagTail, buf@[j]) && buf@[j] < 128);
                }
                let text = crate::text::ascii_to_string(
                    vstd::slice::slice_subrange(buf, pos, e),
                );
                Some(
                    ParseRes {
                        len: e,
                        range: (pos - 1, e),
                        lines: 0,
                        token: Err(TokenError::UnknownStrTag(ShortStr::new(text.as_str()))),
                    },
                )
            } else {
                None
            }
        },
    }
}

} // verus!
