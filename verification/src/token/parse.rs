//! The tokenizer: classify the next lexical unit of a byte buffer.

use crate::error::TokenError;
use crate::scan::{count_newlines, in_set, lemma_seek_not_props, sat_add, seek_not, ByteSet};
use crate::text::ascii_to_string;
use crate::token::rules::{first_char_of, first_char_width, spec_parse_token, spec_skip, SpecRes};
use crate::token::{Brace, Delim, Literal, Token, TokenView};
use vstd::prelude::*;

verus! {

/// What one tokenizer call yields.
#[derive(Debug, PartialEq)]
pub struct ParseRes {
    /// How much to skip before the next `parse_token` call.
    pub len: usize,
    /// The byte range that contains the token.
    pub range: (usize, usize),
    /// Number of lines crossed; nonzero only for newline runs, multi-line
    /// comments and multi-line strings.
    pub lines: usize,
    /// The token, or the token-level error.
    pub token: Result<Token, TokenError>,
}

impl View for ParseRes {
    type V = SpecRes;

    open spec fn view(&self) -> SpecRes {
        SpecRes {
            len: self.len as int,
            start: self.range.0 as int,
            end: self.range.1 as int,
            lines: self.lines as int,
            token: match &self.token {
                Ok(t) => Ok(t@),
                Err(e) => Err(e@),
            },
        }
    }
}

/// Relies on bstr's UTF-8 decoding: the first character of a non-empty
/// byte buffer, with ill-formed sequences read as the replacement
/// character, and the count of bytes it occupies (for ill-formed input,
/// the length of the maximal subpart, at most four bytes; plain ASCII
/// bytes decode to themselves with width one).
#[verifier::external_body]
fn first_char(buf: &[u8]) -> (r: (char, usize))
    requires
        buf@.len() > 0,
    ensures
        r.0 == first_char_of(buf@),
        r.1 == first_char_width(buf@),
        1 <= r.1 <= 4,
        r.1 <= buf@.len(),
        buf@[0] < 128 ==> r.1 == 1 && r.0 == buf@[0] as char,
{
    let (c, w) = bstr::decode_utf8(buf);
    (c.unwrap_or('\u{fffd}'), w)
}

/// Classify the next lexical unit of `buf`: leading blanks are skipped,
/// the first meaningful byte picks the rule, and the result says how far
/// to advance, where the token's bytes lie, how many lines were crossed,
/// and which token or token-level error was found.  The result is exactly
/// the classification table's (`spec_parse_token`).
pub fn parse_token(buf: &[u8]) -> (r: ParseRes)
    requires
        buf@.len() < usize::MAX - 4,
    ensures
        r@ == spec_parse_token(buf@),
        r@.token is Ok ==> r.len <= buf@.len() && r.range.0 <= r.range.1 <= buf@.len()
            && r.range.0 <= r.len,
{
    let sk = seek_not(buf, 0, ByteSet::Blank);
    proof {
        lemma_seek_not_props(buf@, 0, ByteSet::Blank);
    }
    let start = if sk == buf.len() {
        0
    } else {
        sk
    };
    proof {
        assert(start as int == spec_skip(buf@));
    }
    if buf.len() == 0 {
        return ParseRes { len: 0, range: (0, 0), lines: 0, token: Ok(Token::Newline(true)) };
    }
    let b = buf[start];
    if (65 <= b && b <= 90) || (97 <= b && b <= 122) || b == 95 {
        let e = seek_not(buf, start, ByteSet::IdentTail);
        proof {
            lemma_seek_not_props(buf@, start as int, ByteSet::IdentTail);
            assert(forall|j: int|
                start <= j < e ==> in_set(ByteSet::IdentTail, buf@[j]) && buf@[j] < 128);
        }
        let text = ascii_to_string(vstd::slice::slice_subrange(buf, start, e));
        ParseRes { len: e, range: (start, e), lines: 0, token: Ok(Token::Ident(text)) }
    } else if b == 45 || (48 <= b && b <= 57) {
        let e = seek_not(buf, start, ByteSet::NumTail);
        proof {
            lemma_seek_not_props(buf@, start as int, ByteSet::NumTail);
            assert(forall|j: int|
                start <= j < e ==> in_set(ByteSet::NumTail, buf@[j]) && buf@[j] < 128);
        }
        let text = ascii_to_string(vstd::slice::slice_subrange(buf, start, e));
        ParseRes {
            len: e,
            range: (start, e),
            lines: 0,
            token: Ok(Token::Literal(Literal::Num(text))),
        }
    } else if b == 47 {
        match crate::token::comment::parse_comment(buf, start) {
            Some(res) => res,
            None => ParseRes {
                len: start + 1,
                range: (start, start + 1),
                lines: 0,
                token: Err(TokenError::UnexpectedChar('/')),
            },
        }
    } else if b == 123 {
        brace_res(start, true, Brace::Curly)
    } else if b == 125 {
        brace_res(start, false, Brace::Curly)
    } else if b == 40 {
        brace_res(start, true, Brace::Paren)
    } else if b == 41 {
        brace_res(start, false, Brace::Paren)
    } else if b == 91 {
        brace_res(start, true, Brace::Square)
    } else if b == 93 {
        brace_res(start, false, Brace::Square)
    } else if b == 60 {
        brace_res(start, true, Brace::Angle)
    } else if b == 62 {
        brace_res(start, false, Brace::Angle)
    } else if b == 58 {
        ParseRes {
            len: start + 1,
            range: (start, start + 1),
            lines: 0,
            token: Ok(Token::Delim(Delim::Colon)),
        }
    } else if b == 44 {
        ParseRes {
            len: start + 1,
            range: (start, start + 1),
            lines: 0,
            token: Ok(Token::Delim(Delim::Comma)),
        }
    } else if b == 10 {
        let e = seek_not(buf, start, ByteSet::NlBlank);
        proof {
            lemma_seek_not_props(buf@, start as int, ByteSet::NlBlank);
        }
        let lines = count_newlines(buf, start, e);
        ParseRes {
            len: e,
            range: (start, start),
            lines,
            token: Ok(Token::Newline(e == buf.len())),
        }
    } else if b == 34 {
        crate::token::string::parse_basic(buf, start)
    } else if b == 35 {
        match crate::token::string::parse_tagged(buf, start) {
            Some(res) => res,
            None => ParseRes {
                len: start + 1,
                range: (start, start + 1),
                lines: 0,
                token: Err(TokenError::UnexpectedChar('#')),
            },
        }
    } else {
        let tail = vstd::slice::slice_subrange(buf, start, buf.len());
        proof {
            assert(tail@ =~= buf@.skip(start as int));
        }
        let (c, w) = first_char(tail);
        let e = sat_add(start, w);
        ParseRes { len: e, range: (start, e), lines: 0, token: Err(TokenError::UnexpectedChar(c)) }
    }
}

fn brace_res(start: usize, open_brace: bool, brace: Brace) -> (r: ParseRes)
    requires
        start < usize::MAX,
    ensures
        r@ == crate::token::rules::spec_single(
            start as int,
            start + 1,
            TokenView::Brace { start: open_brace, brace },
        ),
{
    ParseRes {
        len: start + 1,
        range: (start, start + 1),
        lines: 0,
        token: Ok(Token::Brace { start: open_brace, brace }),
    }
}

} // verus!
