//! The classification rules of the tokenizer as one ghost model.
//!
//! `spec_parse_token` says, for every byte buffer, exactly which token or
//! token-level error comes out, how many bytes are consumed, which byte
//! range is meaningful, and how many lines are crossed.  The executable
//! tokenizer is proved equal to this model.

use crate::error::TokenErrorView;
use crate::scan::{cap_usize, count_nl, in_set, spec_seek_in, spec_seek_not, ByteSet};
use crate::text::{ascii_chars_of, lossy_chars_of};
use crate::token::{
    spec_suffix_bytes, spec_suffix_chars, Brace, Delim, StrLitView, StrTag, TokenView,
};
use vstd::prelude::*;
use vstd::utf8::{decode_utf8, partial_valid_utf8, valid_utf8};

verus! {

/// What one tokenizer step yields: bytes to consume, the meaningful byte
/// range, lines crossed, and the token or token-level error.
pub ghost struct SpecRes {
    pub len: int,
    pub start: int,
    pub end: int,
    pub lines: int,
    pub token: Result<TokenView, TokenErrorView>,
}

/// What the first (possibly ill-formed) UTF-8 character of a byte buffer
/// decodes to, with ill-formed sequences read as the replacement character.
pub uninterp spec fn first_char_of(s: Seq<u8>) -> char;

/// How many bytes that first character occupies.
pub uninterp spec fn first_char_width(s: Seq<u8>) -> int;

/// Where a byte buffer stops being valid UTF-8: the longest valid prefix.
pub open spec fn utf8_fail_at(b: Seq<u8>) -> int {
    choose|v: int|
        0 <= v <= b.len() && partial_valid_utf8(b, v) && (forall|j: int|
            v < j <= b.len() ==> !partial_valid_utf8(b, j))
}

/// Where scanning for the first token starts: after leading blanks, with
/// the quirk that a buffer of blanks alone starts at zero.
pub open spec fn spec_skip(s: Seq<u8>) -> int {
    let k = spec_seek_not(s, 0, ByteSet::Blank);
    if k == s.len() {
        0
    } else {
        k
    }
}

pub open spec fn is_ident_start(b: u8) -> bool {
    (65 <= b <= 90) || (97 <= b <= 122) || b == 95
}

pub open spec fn is_num_start(b: u8) -> bool {
    b == 45 || (48 <= b <= 57)
}

/// A one-token result with no extra bytes and no lines crossed.
pub open spec fn spec_single(start: int, end: int, token: TokenView) -> SpecRes {
    SpecRes { len: end, start, end, lines: 0, token: Ok(token) }
}

/// The result for a byte no rule accepts.
pub open spec fn spec_unexpected(s: Seq<u8>, start: int) -> SpecRes {
    let w = first_char_width(s.skip(start));
    SpecRes {
        len: cap_usize(start + w),
        start,
        end: cap_usize(start + w),
        lines: 0,
        token: Err(TokenErrorView::UnexpectedChar(first_char_of(s.skip(start)))),
    }
}

/// The result for a stray mark such as `/` or `#` that opens nothing.
pub open spec fn spec_stray(s: Seq<u8>, start: int, c: char) -> SpecRes {
    SpecRes {
        len: start + 1,
        start,
        end: start + 1,
        lines: 0,
        token: Err(TokenErrorView::UnexpectedChar(c)),
    }
}

/// ASCII whitespace trimmed from both ends.
pub open spec fn trim_bytes(s: Seq<u8>) -> Seq<u8> {
    let a = spec_seek_not(s, 0, ByteSet::Ws);
    if a == s.len() {
        Seq::empty()
    } else {
        let b = last_not_ws(s);
        s.subrange(a, b + 1)
    }
}

/// Index of the last byte that is not ASCII whitespace; meaningful only
/// when one exists.
pub open spec fn last_not_ws(s: Seq<u8>) -> int
    decreases s.len(),
{
    if s.len() == 0 {
        -1
    } else if !in_set(ByteSet::Ws, s.last()) {
        s.len() - 1
    } else {
        last_not_ws(s.drop_last())
    }
}

/// Where a block comment opened at `i` (just past `/*`) closes: the index
/// after the `*/` that balances nesting level `level`, if any.
pub open spec fn spec_block_end(s: Seq<u8>, i: int, level: int) -> Option<int>
    decreases s.len() - i,
    when 0 <= i <= s.len()
    via spec_block_end_decreases
{
    let j = spec_seek_in(s, i, ByteSet::CommentMark);
    if j >= s.len() {
        None
    } else if j + 1 < s.len() && s[j] == 42 && s[j + 1] == 47 {
        if level == 0 {
            Some(j + 2)
        } else {
            spec_block_end(s, j + 2, level - 1)
        }
    } else if j + 1 < s.len() && s[j] == 47 && s[j + 1] == 42 {
        spec_block_end(s, j + 2, level + 1)
    } else {
        spec_block_end(s, j + 1, level)
    }
}

#[via_fn]
proof fn spec_block_end_decreases(s: Seq<u8>, i: int, level: int) {
    crate::scan::lemma_seek_in_props(s, i, ByteSet::CommentMark);
}

/// The result of scanning a basic string body for its closing quote.
pub ghost enum StrScan {
    /// The closing quote's index, and whether a backslash was seen.
    Closed { quote: int, esc: bool },
    /// A newline at this index ended the line before the string closed.
    Eol { nl: int },
    /// The buffer ended before the string closed.
    Eof,
}

/// Scan a basic string from `pos` (just past the opening quote or an
/// escape); a backslash skips the following byte.
pub open spec fn spec_basic_scan(s: Seq<u8>, pos: int, esc: bool) -> StrScan
    decreases s.len() + 2 - pos,
    when 0 <= pos <= s.len() + 2
    via spec_basic_scan_decreases
{
    if pos > s.len() {
        StrScan::Eof
    } else {
        let j = spec_seek_in(s, pos, ByteSet::StrStop);
        if j >= s.len() {
            StrScan::Eof
        } else if s[j] == 34 {
            StrScan::Closed { quote: j, esc }
        } else if s[j] == 92 {
            spec_basic_scan(s, j + 2, true)
        } else {
            StrScan::Eol { nl: j }
        }
    }
}

#[via_fn]
proof fn spec_basic_scan_decreases(s: Seq<u8>, pos: int, esc: bool) {
    if pos <= s.len() {
        crate::scan::lemma_seek_in_props(s, pos, ByteSet::StrStop);
    }
}

/// First index at or after `from` where `pat` occurs in `s`.
pub open spec fn spec_find_sub(s: Seq<u8>, from: int, pat: Seq<u8>) -> Option<int>
    decreases s.len() - from,
    when 0 <= from && pat.len() >= 1
{
    if from + pat.len() > s.len() {
        None
    } else if s.subrange(from, from + pat.len()) == pat {
        Some(from)
    } else {
        spec_find_sub(s, from + 1, pat)
    }
}

/// The tag opened at `pos` when the bytes there read `raw"`, `esc"` or
/// `txt"`.
pub open spec fn spec_tag_prefix_at(s: Seq<u8>, pos: int) -> Option<StrTag> {
    if pos + 4 <= s.len() && s[pos] == 114 && s[pos + 1] == 97 && s[pos + 2] == 119 && s[pos + 3]
        == 34 {
        Some(StrTag::Raw)
    } else if pos + 4 <= s.len() && s[pos] == 101 && s[pos + 1] == 115 && s[pos + 2] == 99 && s[pos
        + 3] == 34 {
        Some(StrTag::Esc)
    } else if pos + 4 <= s.len() && s[pos] == 116 && s[pos + 1] == 120 && s[pos + 2] == 116 && s[pos
        + 3] == 34 {
        Some(StrTag::Txt)
    } else {
        None
    }
}

/// The model of a comment opened by `/` at `start`.
pub open spec fn spec_comment(s: Seq<u8>, start: int) -> SpecRes {
    if start + 1 < s.len() && s[start + 1] == 47 {
        // A line comment: up to (not including) the line's terminator.
        let c0 = start + 2;
        let e = spec_seek_in(s, c0, ByteSet::Nl);
        let content_end = if e < s.len() && e > c0 && s[e - 1] == 13 {
            e - 1
        } else {
            e
        };
        SpecRes {
            len: content_end,
            start,
            end: content_end,
            lines: 0,
            token: Ok(TokenView::Comment(lossy_chars_of(trim_bytes(s.subrange(c0, content_end))))),
        }
    } else if start + 1 < s.len() && s[start + 1] == 42 {
        match spec_block_end(s, start + 2, 0) {
            Some(e) => SpecRes {
                len: e,
                start,
                end: e,
                lines: count_nl(s.subrange(start, e)),
                token: Ok(
                    TokenView::Comment(lossy_chars_of(trim_bytes(s.subrange(start + 2, e - 2)))),
                ),
            },
            None => SpecRes {
                len: cap_usize(s.len() as int + 1),
                start: s.len() as int,
                end: cap_usize(s.len() as int + 1),
                lines: 0,
                token: Err(TokenErrorView::MissingCommentTerminator),
            },
        }
    } else {
        spec_stray(s, start, '/')
    }
}

/// The model of a basic string literal opened by `"` at `start`.
pub open spec fn spec_basic(s: Seq<u8>, start: int) -> SpecRes {
    match spec_basic_scan(s, start + 1, false) {
        StrScan::Closed { quote, esc } => {
            let body = s.subrange(start + 1, quote);
            let tag = if esc {
                StrTag::Esc
            } else {
                StrTag::Raw
            };
            if valid_utf8(body) {
                SpecRes {
                    len: quote + 1,
                    start,
                    end: quote + 1,
                    lines: 0,
                    token: Ok(TokenView::LitStr(StrLitView { tag, value: decode_utf8(body) })),
                }
            } else {
                let ns = start + 1 + utf8_fail_at(body);
                SpecRes {
                    len: cap_usize(start + quote + 3),
                    start: ns,
                    end: cap_usize(ns + 1),
                    lines: 0,
                    token: Err(TokenErrorView::LitStrNotUtf8),
                }
            }
        },
        StrScan::Eol { nl } => SpecRes {
            len: nl + 1,
            start: nl,
            end: nl + 1,
            lines: 0,
            token: Err(TokenErrorView::MissingStringTerminator),
        },
        StrScan::Eof => SpecRes {
            len: s.len() as int,
            start: s.len() as int,
            end: s.len() as int,
            lines: 0,
            token: Err(TokenErrorView::MissingStringTerminator),
        },
    }
}

/// The model of a tagged string literal opened by `#` at `start`.
pub open spec fn spec_tagged(s: Seq<u8>, start: int) -> SpecRes {
    let he = spec_seek_not(s, start, ByteSet::Hash);
    if he == s.len() {
        spec_stray(s, start, '#')
    } else {
        let h = he - start;
        let pos = he;
        match spec_tag_prefix_at(s, pos) {
            Some(tag) => {
                let p2 = pos + 4;
                match spec_find_sub(s, p2, spec_suffix_bytes(h)) {
                    Some(f) => {
                        let value = s.subrange(p2, f);
                        let end = f + h + 1;
                        if valid_utf8(value) {
                            SpecRes {
                                len: end,
                                start,
                                end,
                                lines: count_nl(s.subrange(start, end)),
                                token: Ok(
                                    TokenView::LitStr(
                                        StrLitView { tag, value: decode_utf8(value) },
                                    ),
                                ),
                            }
                        } else {
                            let ns = p2 + utf8_fail_at(value);
                            SpecRes {
                                len: cap_usize(p2 + end + 2),
                                start: ns,
                                end: cap_usize(ns + 1),
                                lines: 0,
                                token: Err(TokenErrorView::LitStrNotUtf8),
                            }
                        }
                    },
                    None => SpecRes {
                        len: s.len() as int,
                        start: s.len() as int,
                        end: s.len() as int,
                        lines: 0,
                        token: Err(
                            TokenErrorView::MissingTaggedStringTerminator {
                                tag,
                                suffix: spec_suffix_chars(h),
                            },
                        ),
                    },
                }
            },
            None => {
                let e = spec_seek_not(s, pos, ByteSet::TagTail);
                if e == s.len() {
                    spec_stray(s, start, '#')
                } else if s[e] == 34 {
                    SpecRes {
                        len: e,
                        start: pos - 1,
                        end: e,
                        lines: 0,
                        token: Err(
                            TokenErrorView::UnknownStrTag(ascii_chars_of(s.subrange(pos, e))),
                        ),
                    }
                } else {
                    spec_stray(s, start, '#')
                }
            },
        }
    }
}

/// The classification table: what the tokenizer yields on `s`.
pub open spec fn spec_parse_token(s: Seq<u8>) -> SpecRes {
    let start = spec_skip(s);
    if s.len() == 0 {
        SpecRes { len: 0, start: 0, end: 0, lines: 0, token: Ok(TokenView::Newline(true)) }
    } else {
        let b = s[start];
        if is_ident_start(b) {
            let e = spec_seek_not(s, start, ByteSet::IdentTail);
            spec_single(start, e, TokenView::Ident(ascii_chars_of(s.subrange(start, e))))
        } else if is_num_start(b) {
            let e = spec_seek_not(s, start, ByteSet::NumTail);
            spec_single(start, e, TokenView::LitNum(ascii_chars_of(s.subrange(start, e))))
        } else if b == 47 {
            spec_comment(s, start)
        } else if b == 123 {
            spec_single(start, start + 1, TokenView::Brace { start: true, brace: Brace::Curly })
        } else if b == 125 {
            spec_single(start, start + 1, TokenView::Brace { start: false, brace: Brace::Curly })
        } else if b == 40 {
            spec_single(start, start + 1, TokenView::Brace { start: true, brace: Brace::Paren })
        } else if b == 41 {
            spec_single(start, start + 1, TokenView::Brace { start: false, brace: Brace::Paren })
        } else if b == 91 {
            spec_single(start, start + 1, TokenView::Brace { start: true, brace: Brace::Square })
        } else if b == 93 {
            spec_single(start, start + 1, TokenView::Brace { start: false, brace: Brace::Square })
        } else if b == 60 {
            spec_single(start, start + 1, TokenView::Brace { start: true, brace: Brace::Angle })
        } else if b == 62 {
            spec_single(start, start + 1, TokenView::Brace { start: false, brace: Brace::Angle })
        } else if b == 58 {
            spec_single(start, start + 1, TokenView::Delim(Delim::Colon))
        } else if b == 44 {
            spec_single(start, start + 1, TokenView::Delim(Delim::Comma))
        } else if b == 10 {
            let e = spec_seek_not(s, start, ByteSet::NlBlank);
            SpecRes {
                len: e,
                start,
                end: start,
                lines: count_nl(s.subrange(start, e)),
                token: Ok(TokenView::Newline(e == s.len())),
            }
        } else if b == 34 {
            spec_basic(s, start)
        } else if b == 35 {
            spec_tagged(s, start)
        } else {
            spec_unexpected(s, start)
        }
    }
}

/// Every token the model accepts lies within the buffer: its meaningful
/// range is ordered and `len` stays inside the buffer on success.
pub open spec fn res_in_bounds(s: Seq<u8>, r: SpecRes) -> bool {
    &&& 0 <= r.start <= r.end
    &&& r.token is Ok ==> r.end <= s.len() && r.start <= r.len <= s.len() && r.end <= r.len
    &&& 0 <= r.lines
}

/// Token round-trip: every accepted token can be read back off the bytes
/// at its range.  Identifiers, numbers, braces and delimiters reproduce
/// their bytes exactly; a basic string's range is its quotes around the
/// body that decodes to the token's value; a newline's range is empty by
/// construction and a comment's text is its trimmed body.
pub proof fn lemma_token_round_trip(s: Seq<u8>)
    ensures
        spec_parse_token(s).token matches Ok(t) ==> ({
            let r = spec_parse_token(s);
            match t {
                TokenView::Ident(txt) => txt == ascii_chars_of(s.subrange(r.start, r.end)),
                TokenView::LitNum(txt) => txt == ascii_chars_of(s.subrange(r.start, r.end)),
                TokenView::Brace { start: is_open, brace } => s.subrange(r.start, r.end) == seq![
                    brace.spec_byte(is_open),
                ],
                TokenView::Delim(d) => s.subrange(r.start, r.end) == seq![
                    (if d is Colon {
                        58u8
                    } else {
                        44u8
                    }),
                ],
                TokenView::LitStr(l) => (s.len() > 0 && s[spec_skip(s)] == 34 ==> r.end
                    >= r.start + 2 && l.value == vstd::utf8::decode_utf8(
                    s.subrange(r.start + 1, r.end - 1),
                )),
                _ => true,
            }
        }),
{
    let start = spec_skip(s);
    crate::scan::lemma_seek_not_props(s, 0, ByteSet::Blank);
    if s.len() > 0 {
        let b = s[start];
        if b == 123 || b == 125 || b == 40 || b == 41 || b == 91 || b == 93 || b == 60 || b == 62
            || b == 58 || b == 44 {
            assert(s.subrange(start, start + 1) =~= seq![b]);
        } else if b == 34 {
            lemma_basic_round_trip(s, start);
        }
    }
}

proof fn lemma_basic_round_trip(s: Seq<u8>, start: int)
    requires
        0 <= start < s.len(),
        s[start] == 34,
    ensures
        spec_basic(s, start).token matches Ok(t) ==> ({
            let r = spec_basic(s, start);
            t matches TokenView::LitStr(l) && r.end >= r.start + 2 && l.value
                == vstd::utf8::decode_utf8(s.subrange(r.start + 1, r.end - 1))
        }),
{
    lemma_basic_scan_bounds_pub(s, start + 1, false);
    match spec_basic_scan(s, start + 1, false) {
        StrScan::Closed { quote, esc } => {
            let body = s.subrange(start + 1, quote);
            if valid_utf8(body) {
                assert(s.subrange(start + 1, quote + 1 - 1) =~= body);
            }
        },
        _ => {},
    }
}

/// A closing quote found by the string scan lies within the buffer.
pub proof fn lemma_basic_scan_bounds_pub(s: Seq<u8>, pos: int, esc: bool)
    requires
        0 <= pos <= s.len() + 2,
    ensures
        spec_basic_scan(s, pos, esc) matches StrScan::Closed { quote, .. } ==> pos <= quote
            < s.len(),
    decreases s.len() + 2 - pos,
{
    if pos <= s.len() {
        crate::scan::lemma_seek_in_props(s, pos, ByteSet::StrStop);
        let j = crate::scan::spec_seek_in(s, pos, ByteSet::StrStop);
        if j < s.len() && s[j] != 34 && s[j] == 92 {
            lemma_basic_scan_bounds_pub(s, j + 2, true);
        }
    }
}

/// Span coverage at the token level: every accepted token's meaningful
/// range is ordered and lies inside the buffer, and the consumed length
/// covers it.
pub proof fn lemma_token_range_in_bounds(s: Seq<u8>)
    ensures
        spec_parse_token(s).token is Ok ==> res_in_bounds(s, spec_parse_token(s)),
{
    let start = spec_skip(s);
    crate::scan::lemma_seek_not_props(s, 0, ByteSet::Blank);
    if s.len() > 0 {
        let b = s[start];
        if is_ident_start(b) {
            crate::scan::lemma_seek_not_props(s, start, ByteSet::IdentTail);
        } else if is_num_start(b) {
            crate::scan::lemma_seek_not_props(s, start, ByteSet::NumTail);
        } else if b == 47 {
            if start + 1 < s.len() && s[start + 1] == 47 {
                crate::scan::lemma_seek_in_props(s, start + 2, ByteSet::Nl);
            } else if start + 1 < s.len() && s[start + 1] == 42 {
                lemma_block_end_in_bounds(s, start + 2, 0);
                match spec_block_end(s, start + 2, 0) {
                    Some(e) => {
                        crate::scan::lemma_count_nl_bounds(s.subrange(start, e));
                    },
                    None => {},
                }
            }
        } else if b == 10 {
            crate::scan::lemma_seek_not_props(s, start, ByteSet::NlBlank);
            let e = crate::scan::spec_seek_not(s, start, ByteSet::NlBlank);
            crate::scan::lemma_count_nl_bounds(s.subrange(start, e));
        } else if b == 34 {
            lemma_basic_scan_bounds_pub(s, start + 1, false);
        } else if b == 35 {
            lemma_tagged_in_bounds(s, start);
        }
    }
}

proof fn lemma_block_end_in_bounds(s: Seq<u8>, i: int, level: int)
    requires
        0 <= i <= s.len(),
    ensures
        spec_block_end(s, i, level) matches Some(e) ==> i <= e <= s.len(),
    decreases s.len() - i,
{
    crate::scan::lemma_seek_in_props(s, i, ByteSet::CommentMark);
    let j = crate::scan::spec_seek_in(s, i, ByteSet::CommentMark);
    if j < s.len() {
        if j + 1 < s.len() && s[j] == 42 && s[j + 1] == 47 {
            if level != 0 {
                lemma_block_end_in_bounds(s, j + 2, level - 1);
            }
        } else if j + 1 < s.len() && s[j] == 47 && s[j + 1] == 42 {
            lemma_block_end_in_bounds(s, j + 2, level + 1);
        } else {
            lemma_block_end_in_bounds(s, j + 1, level);
        }
    }
}

proof fn lemma_tagged_in_bounds(s: Seq<u8>, start: int)
    requires
        0 <= start < s.len(),
        s[start] == 35,
    ensures
        spec_tagged(s, start).token is Ok ==> res_in_bounds(s, spec_tagged(s, start)),
{
    crate::scan::lemma_seek_not_props(s, start, ByteSet::Hash);
    let he = crate::scan::spec_seek_not(s, start, ByteSet::Hash);
    if he != s.len() {
        let h = he - start;
        let pos = he;
        if spec_tag_prefix_at(s, pos) is Some {
            lemma_find_sub_in_bounds(s, pos + 4, crate::token::spec_suffix_bytes(h));
            match spec_find_sub(s, pos + 4, crate::token::spec_suffix_bytes(h)) {
                Some(f) => {
                    crate::scan::lemma_count_nl_bounds(s.subrange(start, f + h + 1));
                },
                None => {},
            }
        }
    }
}

proof fn lemma_find_sub_in_bounds(s: Seq<u8>, from: int, pat: Seq<u8>)
    requires
        0 <= from,
        pat.len() >= 1,
    ensures
        spec_find_sub(s, from, pat) matches Some(f) ==> from <= f && f + pat.len() <= s.len(),
    decreases s.len() - from,
{
    if from + pat.len() > s.len() {
    } else if s.subrange(from, from + pat.len()) == pat {
    } else {
        lemma_find_sub_in_bounds(s, from + 1, pat);
    }
}

} // verus!
