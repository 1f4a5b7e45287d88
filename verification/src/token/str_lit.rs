//! Dispatching a string literal's body to its tag's decoder.

use crate::error::ParseError;
use crate::span::SourceSpan;
use crate::token::{StrLit, StrTag};
use vstd::prelude::*;

verus! {

/// What a literal's body decodes to: raw bodies verbatim, wrapped bodies
/// through the text rules, escaped bodies through the escape decoder
/// (`None` when an escape is invalid).
pub open spec fn spec_lit_text(l: crate::token::StrLitView) -> Option<Seq<char>> {
    match l.tag {
        StrTag::Raw => Some(l.value),
        StrTag::Txt => Some(
            crate::text::lossy_chars_of(
                crate::token::txt::spec_txt_bytes(vstd::utf8::encode_utf8(l.value)),
            ),
        ),
        StrTag::Esc => match crate::token::esc::spec_esc_bytes(
            vstd::utf8::encode_utf8(l.value),
            0,
        ) {
            Ok(bytes) => Some(crate::text::lossy_chars_of(bytes)),
            Err(_) => None,
        },
    }
}

impl StrLit {
    /// Build a literal from its tag and raw body.
    pub fn new(tag: StrTag, value: String) -> (r: StrLit)
        ensures
            r.tag == tag,
            r.value@ == value@,
    {
        StrLit { tag, value }
    }

    /// Decode the body according to the tag: raw bodies stay as they are,
    /// `esc` bodies expand their backslash escapes (an invalid escape is
    /// reported with a sub-span of `span` at its byte offset), and `txt`
    /// bodies go through the text-wrapping rules.
    pub fn decode_str(&self, span: &SourceSpan) -> (r: Result<String, ParseError>)
        ensures
            (r is Ok) <==> (spec_lit_text(self@) is Some),
            r matches Ok(s) ==> spec_lit_text(self@) == Some(s@),
            self.tag == StrTag::Esc ==> (match r {
                Ok(s) => (crate::token::esc::spec_esc_bytes(vstd::utf8::encode_utf8(self.value@), 0)
                    matches Ok(bytes) && s@ == crate::text::lossy_chars_of(bytes)),
                Err(e) => (e matches ParseError::StrEscError { error, .. }
                    && crate::token::esc::spec_esc_bytes(vstd::utf8::encode_utf8(self.value@), 0)
                    matches Err(t) && t.2 == error),
            }),
            r matches Err(e) ==> (e matches ParseError::StrEscError { span: sp, .. }
                && crate::token::esc::spec_esc_bytes(vstd::utf8::encode_utf8(self.value@), 0)
                matches Err(t) && (span.is_single_line() && span.spec_col() + t.0 + t.1 <= 65535
                && span.spec_pos() + t.0 <= usize::MAX ==> sp.spec_pos() == span.spec_pos() + t.0
                && sp.spec_line() == span.spec_line() && sp.spec_col() == span.spec_col() + t.0
                && sp.spec_end_col() == span.spec_col() + t.0 + t.1)),
    {
        match self.tag {
            StrTag::Raw => Ok(self.value.clone()),
            StrTag::Esc => match crate::token::esc::decode_str(self.value.as_str()) {
                Ok(s) => Ok(s),
                Err((off, len, error)) => Err(
                    ParseError::StrEscError { span: span.with_off_clamped(off, len), error },
                ),
            },
            StrTag::Txt => Ok(crate::token::txt::decode_str(self.value.as_str())),
        }
    }
}

} // verus!
