//! Short strings, stored without allocation when they are small, and the
//! string parsers.

use crate::error::{ParseError, TokenErrorView, Wanted};
use crate::parser::{span_matches, spec_drive, token_at, LogixParser};
use crate::token::rules::spec_parse_token;
use crate::token::str_lit::spec_lit_text;
use crate::token::{spec_type_name, Action, Literal, StrLitView, StrTag, Token, TokenView};
use crate::type_trait::{LogixType, LogixTypeDescriptor, LogixValueDescriptor, Value};
use vstd::prelude::*;

verus! {

#[verifier::external_type_specification]
#[verifier::external_body]
pub struct ExSmolStr(smol_str::SmolStr);

/// What a `smol_str::SmolStr` holds: its characters.
pub uninterp spec fn smol_chars(s: smol_str::SmolStr) -> Seq<char>;

/// Relies on smol_str::SmolStr::new: the new value holds the given text.
#[verifier::external_body]
fn smol_new(text: &str) -> (r: smol_str::SmolStr)
    ensures
        smol_chars(r) == text@,
{
    smol_str::SmolStr::new(text)
}

/// Relies on smol_str::SmolStr::as_str: hands back the held text.
#[verifier::external_body]
fn smol_text(s: &smol_str::SmolStr) -> (r: &str)
    ensures
        r@ == smol_chars(*s),
{
    s.as_str()
}

/// Relies on smol_str::SmolStr's Clone: the clone holds the same text.
#[verifier::external_body]
fn smol_clone(s: &smol_str::SmolStr) -> (r: smol_str::SmolStr)
    ensures
        smol_chars(r) == smol_chars(*s),
{
    s.clone()
}

/// A short string; keys and tag names are stored in this form.
#[derive(Debug, PartialEq, Eq, Hash)]
pub struct ShortStr {
    pub value: smol_str::SmolStr,
}

impl View for ShortStr {
    type V = Seq<char>;

    open spec fn view(&self) -> Seq<char> {
        smol_chars(self.value)
    }
}

impl Clone for ShortStr {
    /// Clones hold the same text.
    fn clone(&self) -> (r: Self)
        ensures
            r@ == self@,
    {
        ShortStr { value: smol_clone(&self.value) }
    }
}

impl ShortStr {
    /// Store the given text.
    pub fn new(text: &str) -> (r: ShortStr)
        ensures
            r@ == text@,
    {
        ShortStr { value: smol_new(text) }
    }

    /// The held text.
    pub fn as_str(&self) -> (r: &str)
        ensures
            r@ == self@,
    {
        smol_text(&self.value)
    }

    /// Deep equality of the held text.
    pub fn same_str(&self, other: &ShortStr) -> (r: bool)
        ensures
            r == (self@ == other@),
    {
        crate::text::str_eq(self.as_str(), other.as_str())
    }
}

/// What a decoded string value is, given the literal it came from: raw
/// bodies verbatim, escaped bodies through the escape decoder, wrapped
/// bodies through the text decoder.
pub open spec fn spec_decoded(l: StrLitView, out: Seq<char>) -> bool {
    match l.tag {
        StrTag::Raw => out == l.value,
        StrTag::Esc => (crate::token::esc::spec_esc_bytes(
            vstd::utf8::encode_utf8(l.value),
            0,
        ) matches Ok(bytes) && out == crate::text::lossy_chars_of(bytes)),
        StrTag::Txt => out == crate::text::lossy_chars_of(
            crate::token::txt::spec_txt_bytes(vstd::utf8::encode_utf8(l.value)),
        ),
    }
}

impl LogixType for String {
    fn descriptor() -> LogixTypeDescriptor {
        LogixTypeDescriptor {
            name: "string",
            doc: "a valid utf-8 string",
            value: LogixValueDescriptor::Native,
        }
    }

    fn default_value() -> Option<Self> {
        None
    }

    fn logix_parse(p: &mut LogixParser) -> (r: Result<Value<Self>, ParseError>)
        ensures
            old(p).state.eof ==> r is Err,
            !old(p).state.eof ==> ({
                let d = spec_drive(
                    old(p).file.spec_data(),
                    old(p).state,
                    old(p).state.last_was_newline,
                );
                let res = spec_parse_token(old(p).file.spec_data().skip(d.emit.cur_pos as int));
                match d.token {
                    Ok(t) => (match t {
                        TokenView::LitStr(l) => ((r is Ok) <==> (spec_lit_text(l) is Some)) && (r
                            matches Ok(v) ==> spec_lit_text(l) == Some(v.value@) && span_matches(
                            v.span,
                            old(p).file,
                            d.emit,
                            res.start,
                            res.end,
                        )) && (r matches Err(e) ==> e matches ParseError::StrEscError { .. }),
                        TokenView::Action(_) => true,
                        _ => (r matches Err(e) && e matches ParseError::UnexpectedToken {
                            got_token,
                            wanted,
                            while_parsing,
                            ..
                        } && got_token@ == spec_type_name(t) && wanted == Wanted::LitStr
                            && while_parsing == "string"),
                    }),
                    Err(ev) => (r matches Err(e) && e matches ParseError::TokenError {
                        error,
                        ..
                    } && error@ == ev),
                }
            }),
    {
        match p.next_token() {
            Ok((span, Token::Literal(Literal::Str(lit)))) => match lit.decode_str(&span) {
                Ok(text) => {
                    proof {
                        assert(spec_decoded(lit@, text@));
                    }
                    Ok(Value { value: text, span })
                },
                Err(e) => Err(e),
            },
            Ok((span, Token::Action(name))) => crate::action::for_string_data(name, span, p),
            Ok((span, token)) => Err(
                ParseError::UnexpectedToken {
                    span,
                    while_parsing: "string",
                    wanted: Wanted::LitStr,
                    got_token: token.token_type_name(),
                },
            ),
            Err(e) => Err(e),
        }
    }
}

impl LogixType for ShortStr {
    fn descriptor() -> LogixTypeDescriptor {
        LogixTypeDescriptor {
            name: "string",
            doc: "a valid utf-8 string",
            value: LogixValueDescriptor::Native,
        }
    }

    fn default_value() -> Option<Self> {
        None
    }

    fn logix_parse(p: &mut LogixParser) -> (r: Result<Value<Self>, ParseError>)
        ensures
            old(p).state.eof ==> r is Err,
            !old(p).state.eof ==> ({
                let d = spec_drive(
                    old(p).file.spec_data(),
                    old(p).state,
                    old(p).state.last_was_newline,
                );
                let res = spec_parse_token(old(p).file.spec_data().skip(d.emit.cur_pos as int));
                match d.token {
                    Ok(t) => (match t {
                        TokenView::LitStr(l) => ((r is Ok) <==> (spec_lit_text(l) is Some)) && (r
                            matches Ok(v) ==> spec_lit_text(l) == Some(v.value@) && span_matches(
                            v.span,
                            old(p).file,
                            d.emit,
                            res.start,
                            res.end,
                        )) && (r matches Err(e) ==> e matches ParseError::StrEscError { .. }),
                        TokenView::Action(_) => true,
                        _ => (r matches Err(e) && e matches ParseError::UnexpectedToken {
                            got_token,
                            wanted,
                            while_parsing,
                            ..
                        } && got_token@ == spec_type_name(t) && wanted == Wanted::LitStr
                            && while_parsing == "string"),
                    }),
                    Err(ev) => (r matches Err(e) && e matches ParseError::TokenError {
                        error,
                        ..
                    } && error@ == ev),
                }
            }),
    {
        match String::logix_parse(p) {
            Ok(v) => {
                let Value { value, span } = v;
                Ok(Value { value: ShortStr::new(value.as_str()), span })
            },
            Err(e) => Err(e),
        }
    }
}


} // verus!
