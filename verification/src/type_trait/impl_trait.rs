//! `LogixType` for the built-in scalar types: the eight integer widths and
//! `Option`.
//!
//! Number tokens carry their digits uninterpreted; the meaning of such a
//! digit string is `spec_parse_int`, and each width's parser accepts
//! exactly the strings whose value fits the width.

use crate::error::{ParseError, TokenErrorView, Wanted};
use crate::parser::{spec_drive, span_matches, token_at, LogixParser};
use crate::token::rules::spec_parse_token;
use crate::token::{spec_type_name, Literal, Token, TokenView};
use crate::type_trait::{LogixType, LogixTypeDescriptor, LogixValueDescriptor, Value};
use vstd::prelude::*;

verus! {

pub open spec fn is_digit_char(c: char) -> bool {
    '0' <= c <= '9'
}

pub open spec fn digit_of(c: char) -> int {
    c as int - 48
}

pub open spec fn all_digit_chars(s: Seq<char>) -> bool {
    forall|i: int| 0 <= i < s.len() ==> is_digit_char(s[i])
}

/// The value of a run of decimal digit characters.
pub open spec fn digits_val(s: Seq<char>) -> int
    decreases s.len(),
{
    if s.len() == 0 {
        0
    } else {
        digits_val(s.drop_last()) * 10 + digit_of(s.last())
    }
}

/// What a decimal integer string means: an optional sign followed by at
/// least one digit; anything else (an underscore, a dot, a second sign)
/// means nothing.
pub open spec fn spec_parse_int(s: Seq<char>) -> Option<int> {
    if s.len() == 0 {
        None
    } else if s[0] == '-' {
        if s.len() > 1 && all_digit_chars(s.skip(1)) {
            Some(-digits_val(s.skip(1)))
        } else {
            None
        }
    } else if s[0] == '+' {
        if s.len() > 1 && all_digit_chars(s.skip(1)) {
            Some(digits_val(s.skip(1)))
        } else {
            None
        }
    } else if all_digit_chars(s) {
        Some(digits_val(s))
    } else {
        None
    }
}

proof fn lemma_digits_nonneg(s: Seq<char>)
    requires
        all_digit_chars(s),
    ensures
        digits_val(s) >= 0,
    decreases s.len(),
{
    if s.len() > 0 {
        assert(forall|i: int| 0 <= i < s.len() - 1 ==> s.drop_last()[i] == s[i]);
        lemma_digits_nonneg(s.drop_last());
    }
}

proof fn lemma_digits_grow(s: Seq<char>, i: int)
    requires
        all_digit_chars(s),
        0 <= i <= s.len(),
    ensures
        digits_val(s) >= digits_val(s.take(i)),
    decreases s.len() - i,
{
    if i < s.len() {
        assert(s.take(i + 1).drop_last() =~= s.take(i));
        assert(forall|k: int| 0 <= k < i + 1 ==> s.take(i + 1)[k] == s[k]);
        lemma_digits_nonneg(s.take(i));
        lemma_digits_grow(s, i + 1);
        assert(digits_val(s.take(i + 1)) == digits_val(s.take(i)) * 10 + digit_of(s[i]));
    } else {
        assert(s.take(i) =~= s);
    }
}

/// Read the decimal digits of `s` from index `from` on; `None` when a
/// non-digit appears, the run is empty, or the value exceeds `u64`.
fn parse_digits(s: &str, from: usize) -> (r: Option<u64>)
    requires
        from <= s@.len(),
    ensures
        match r {
            Some(v) => all_digit_chars(s@.skip(from as int)) && s@.len() > from && v
                == digits_val(s@.skip(from as int)),
            None => s@.len() == from || !all_digit_chars(s@.skip(from as int)) || digits_val(
                s@.skip(from as int),
            ) > u64::MAX,
        },
{
    let n = s.unicode_len();
    if from >= n {
        return None;
    }
    let ghost digits = s@.skip(from as int);
    let mut acc: u64 = 0;
    let mut i: usize = from;
    while i < n
        invariant
            from <= i <= n,
            n == s@.len(),
            digits == s@.skip(from as int),
            all_digit_chars(digits.take(i - from)),
            acc == digits_val(digits.take(i - from)),
        decreases n - i,
    {
        let c = s.get_char(i);
        proof {
            assert(digits[i - from] == s@[i as int]);
        }
        if !('0' <= c && c <= '9') {
            proof {
                assert(!is_digit_char(digits[i - from]));
            }
            return None;
        }
        let d: u64 = (c as u32 as u64) - 48;
        proof {
            assert(digits.take(i - from + 1).drop_last() =~= digits.take(i - from));
            assert(digits.take(i - from + 1).last() == digits[i - from]);
        }
        if acc > (u64::MAX - d) / 10 {
            proof {
                lemma_digits_nonneg(digits.take(i - from + 1));
                assert(digits_val(digits.take(i - from + 1)) == acc * 10 + d);
                if all_digit_chars(digits) {
                    lemma_digits_grow(digits, i - from + 1);
                    assert(digits_val(digits) >= digits_val(digits.take(i - from + 1)));
                    assert(acc * 10 + d > u64::MAX);
                }
            }
            return None;
        }
        acc = acc * 10 + d;
        i = i + 1;
    }
    proof {
        assert(digits.take(n - from) =~= digits);
    }
    Some(acc)
}

/// Parse `s` as a decimal integer within `[-(neg_mag), hi]`, where
/// `neg_mag` is the magnitude allowed below zero.  Exactly the strings
/// `spec_parse_int` gives a value in range are accepted.
pub fn parse_bounded(s: &str, neg_mag: u64, hi: u64) -> (r: Option<(bool, u64)>)
    ensures
        match r {
            Some(p) => (spec_parse_int(s@) matches Some(v) && v == (if p.0 {
                -(p.1 as int)
            } else {
                p.1 as int
            }) && -(neg_mag as int) <= v && v <= hi),
            None => (match spec_parse_int(s@) {
                Some(v) => !(-(neg_mag as int) <= v <= hi),
                None => true,
            }),
        },
{
    let n = s.unicode_len();
    if n == 0 {
        return None;
    }
    let c0 = s.get_char(0);
    if c0 == '-' {
        match parse_digits(s, 1) {
            Some(mag) => {
                proof {
                    lemma_digits_nonneg(s@.skip(1));
                }
                if mag <= neg_mag {
                    Some((true, mag))
                } else {
                    None
                }
            },
            None => {
                proof {
                    match spec_parse_int(s@) {
                        Some(v) => {
                            assert(digits_val(s@.skip(1)) > u64::MAX);
                            assert(v == -digits_val(s@.skip(1)));
                            assert(v < -(neg_mag as int));
                        },
                        None => {},
                    }
                }
                None
            },
        }
    } else if c0 == '+' {
        match parse_digits(s, 1) {
            Some(mag) => {
                if mag <= hi {
                    Some((false, mag))
                } else {
                    None
                }
            },
            None => {
                proof {
                    match spec_parse_int(s@) {
                        Some(v) => {
                            assert(digits_val(s@.skip(1)) > u64::MAX);
                        },
                        None => {},
                    }
                }
                None
            },
        }
    } else {
        match parse_digits(s, 0) {
            Some(mag) => {
                proof {
                    assert(s@.skip(0) =~= s@);
                }
                if mag <= hi {
                    Some((false, mag))
                } else {
                    None
                }
            },
            None => {
                proof {
                    assert(s@.skip(0) =~= s@);
                    match spec_parse_int(s@) {
                        Some(v) => {
                            assert(s@[0] != '-' && s@[0] != '+');
                            assert(digits_val(s@) > u64::MAX);
                        },
                        None => {},
                    }
                }
                None
            },
        }
    }
}

/// The refusal every integer parser gives a number token whose digits do
/// not mean a value in its range.
pub open spec fn int_token_refused(
    r: Result<(crate::span::SourceSpan, bool, u64), ParseError>,
    name: &'static str,
    wanted_name: &'static str,
) -> bool {
    r matches Err(e) && e matches ParseError::UnexpectedToken {
        got_token,
        wanted,
        while_parsing,
        ..
    } && got_token@ == "number"@ && wanted == Wanted::LitNum(wanted_name) && while_parsing
        == name
}

/// Consume a number token and parse it within `[-(neg_mag), hi]`; used by
/// every integer width.  On success the span is the token's and the value
/// is exactly what the digits mean; every other next token is refused
/// with the token's own name.
#[verifier::rlimit(100)]
#[verifier::spinoff_prover]
fn parse_int_token(
    p: &mut LogixParser,
    name: &'static str,
    wanted_name: &'static str,
    neg_mag: u64,
    hi: u64,
) -> (r: Result<(crate::span::SourceSpan, bool, u64), ParseError>)
    requires
        old(p).wf(),
    ensures
        final(p).wf(),
        final(p).file.same_file(&old(p).file),
        final(p).state.cur_pos >= old(p).state.cur_pos,
        r matches Ok(v) ==> v.0.file.same_file(&old(p).file),
        r matches Ok(v) ==> (if v.1 {
            v.2 <= neg_mag
        } else {
            v.2 <= hi
        }),
        r matches Ok(v) ==> final(p).state.cur_pos > old(p).state.cur_pos,
        r matches Ok(v) ==> exists|q: int, txt: Seq<char>|
            {
                &&& token_at(old(p).file.spec_data(), q, TokenView::LitNum(txt), v.0)
                &&& (spec_parse_int(txt) matches Some(n) && n == (if v.1 {
                    -(v.2 as int)
                } else {
                    v.2 as int
                }) && -(neg_mag as int) <= n <= hi)
            } || old(p).state.eof,
        r matches Err(e) ==> (e matches ParseError::UnexpectedToken {
            while_parsing: wp,
            wanted: w,
            ..
        } ==> wp == name && w == Wanted::LitNum(wanted_name)),
        r matches Err(e) ==> !(e matches ParseError::FsError(_)),
        old(p).state.eof ==> (r matches Err(e) && e matches ParseError::UnexpectedToken {
            got_token,
            ..
        } && got_token@ == spec_type_name(TokenView::Newline(true))),
        !old(p).state.eof ==> ({
            let d = spec_drive(
                old(p).file.spec_data(),
                old(p).state,
                old(p).state.last_was_newline,
            );
            let res = spec_parse_token(old(p).file.spec_data().skip(d.emit.cur_pos as int));
            &&& final(p).state == d.state
            &&& (match d.token {
                Ok(t) => (match t {
                    TokenView::LitNum(txt) => (match spec_parse_int(txt) {
                        Some(n) => if -(neg_mag as int) <= n <= hi {
                            (r matches Ok(v) && n == (if v.1 {
                                -(v.2 as int)
                            } else {
                                v.2 as int
                            }) && span_matches(v.0, old(p).file, d.emit, res.start, res.end))
                        } else {
                            int_token_refused(r, name, wanted_name)
                        },
                        None => int_token_refused(r, name, wanted_name),
                    }),
                    _ => (r matches Err(e) && e matches ParseError::UnexpectedToken {
                        got_token,
                        ..
                    } && got_token@ == spec_type_name(t)),
                }),
                Err(ev) => (r matches Err(e) && e matches ParseError::TokenError {
                    error,
                    ..
                } && error@ == ev),
            })
        }),
{
    match p.next_token() {
        Ok((span, Token::Literal(Literal::Num(num)))) => {
            match parse_bounded(num.as_str(), neg_mag, hi) {
                Some((neg, mag)) => Ok((span, neg, mag)),
                None => Err(
                    ParseError::UnexpectedToken {
                        span,
                        got_token: "number",
                        wanted: Wanted::LitNum(wanted_name),
                        while_parsing: name,
                    },
                ),
            }
        },
        Ok((span, token)) => Err(
            ParseError::UnexpectedToken {
                span,
                got_token: token.token_type_name(),
                wanted: Wanted::LitNum(wanted_name),
                while_parsing: name,
            },
        ),
        Err(e) => Err(e),
    }
}

impl LogixType for u8 {
    fn descriptor() -> LogixTypeDescriptor {
        LogixTypeDescriptor { name: "u8", doc: "", value: LogixValueDescriptor::Native }
    }

    fn default_value() -> Option<Self> {
        None
    }

    fn logix_parse(p: &mut LogixParser) -> (r: Result<Value<Self>, ParseError>)
        ensures
            old(p).state.eof ==> r is Err,
            r matches Err(e) ==> (e matches ParseError::UnexpectedToken {
                while_parsing: wp,
                wanted: w,
                ..
            } ==> wp == "u8" && w == Wanted::LitNum("unsigned integer")),
            !old(p).state.eof ==> ({
                let d = spec_drive(
                    old(p).file.spec_data(),
                    old(p).state,
                    old(p).state.last_was_newline,
                );
                let res = spec_parse_token(old(p).file.spec_data().skip(d.emit.cur_pos as int));
                match d.token {
                    Ok(t) => (match t {
                        TokenView::LitNum(txt) => (match spec_parse_int(txt) {
                            Some(n) => ((r is Ok) <==> -(0 as int) <= n <= 255) && (r
                                matches Ok(v) ==> v.value as int == n && span_matches(
                                v.span,
                                old(p).file,
                                d.emit,
                                res.start,
                                res.end,
                            )),
                            None => r is Err,
                        }),
                        _ => r is Err,
                    }),
                    Err(_) => r is Err,
                }
            }),
    {
        match parse_int_token(p, "u8", "unsigned integer", 0, 255) {
            Ok((span, _, mag)) => Ok(Value { value: mag as u8, span }),
            Err(e) => Err(e),
        }
    }
}

impl LogixType for u16 {
    fn descriptor() -> LogixTypeDescriptor {
        LogixTypeDescriptor { name: "u16", doc: "", value: LogixValueDescriptor::Native }
    }

    fn default_value() -> Option<Self> {
        None
    }

    fn logix_parse(p: &mut LogixParser) -> (r: Result<Value<Self>, ParseError>)
        ensures
            old(p).state.eof ==> r is Err,
            r matches Err(e) ==> (e matches ParseError::UnexpectedToken {
                while_parsing: wp,
                wanted: w,
                ..
            } ==> wp == "u16" && w == Wanted::LitNum("unsigned integer")),
            !old(p).state.eof ==> ({
                let d = spec_drive(
                    old(p).file.spec_data(),
                    old(p).state,
                    old(p).state.last_was_newline,
                );
                let res = spec_parse_token(old(p).file.spec_data().skip(d.emit.cur_pos as int));
                match d.token {
                    Ok(t) => (match t {
                        TokenView::LitNum(txt) => (match spec_parse_int(txt) {
                            Some(n) => ((r is Ok) <==> -(0 as int) <= n <= 65535) && (r
                                matches Ok(v) ==> v.value as int == n && span_matches(
                                v.span,
                                old(p).file,
                                d.emit,
                                res.start,
                                res.end,
                            )),
                            None => r is Err,
                        }),
                        _ => r is Err,
                    }),
                    Err(_) => r is Err,
                }
            }),
    {
        match parse_int_token(p, "u16", "unsigned integer", 0, 65535) {
            Ok((span, _, mag)) => Ok(Value { value: mag as u16, span }),
            Err(e) => Err(e),
        }
    }
}

impl LogixType for u32 {
    fn descriptor() -> LogixTypeDescriptor {
        LogixTypeDescriptor { name: "u32", doc: "", value: LogixValueDescriptor::Native }
    }

    fn default_value() -> Option<Self> {
        None
    }

    fn logix_parse(p: &mut LogixParser) -> (r: Result<Value<Self>, ParseError>)
        ensures
            old(p).state.eof ==> r is Err,
            r matches Err(e) ==> (e matches ParseError::UnexpectedToken {
                while_parsing: wp,
                wanted: w,
                ..
            } ==> wp == "u32" && w == Wanted::LitNum("unsigned integer")),
            !old(p).state.eof ==> ({
                let d = spec_drive(
                    old(p).file.spec_data(),
                    old(p).state,
                    old(p).state.last_was_newline,
                );
                let res = spec_parse_token(old(p).file.spec_data().skip(d.emit.cur_pos as int));
                match d.token {
                    Ok(t) => (match t {
                        TokenView::LitNum(txt) => (match spec_parse_int(txt) {
                            Some(n) => ((r is Ok) <==> -(0 as int) <= n <= 0xffff_ffff) && (r
                                matches Ok(v) ==> v.value as int == n && span_matches(
                                v.span,
                                old(p).file,
                                d.emit,
                                res.start,
                                res.end,
                            )),
                            None => r is Err,
                        }),
                        _ => r is Err,
                    }),
                    Err(_) => r is Err,
                }
            }),
    {
        match parse_int_token(p, "u32", "unsigned integer", 0, 0xffff_ffff) {
            Ok((span, _, mag)) => Ok(Value { value: mag as u32, span }),
            Err(e) => Err(e),
        }
    }
}

impl LogixType for u64 {
    fn descriptor() -> LogixTypeDescriptor {
        LogixTypeDescriptor { name: "u64", doc: "", value: LogixValueDescriptor::Native }
    }

    fn default_value() -> Option<Self> {
        None
    }

    fn logix_parse(p: &mut LogixParser) -> (r: Result<Value<Self>, ParseError>)
        ensures
            old(p).state.eof ==> r is Err,
            r matches Err(e) ==> (e matches ParseError::UnexpectedToken {
                while_parsing: wp,
                wanted: w,
                ..
            } ==> wp == "u64" && w == Wanted::LitNum("unsigned integer")),
            !old(p).state.eof ==> ({
                let d = spec_drive(
                    old(p).file.spec_data(),
                    old(p).state,
                    old(p).state.last_was_newline,
                );
                let res = spec_parse_token(old(p).file.spec_data().skip(d.emit.cur_pos as int));
                match d.token {
                    Ok(t) => (match t {
                        TokenView::LitNum(txt) => (match spec_parse_int(txt) {
                            Some(n) => ((r is Ok) <==> -(0 as int) <= n <= u64::MAX) && (r
                                matches Ok(v) ==> v.value as int == n && span_matches(
                                v.span,
                                old(p).file,
                                d.emit,
                                res.start,
                                res.end,
                            )),
                            None => r is Err,
                        }),
                        _ => r is Err,
                    }),
                    Err(_) => r is Err,
                }
            }),
    {
        match parse_int_token(p, "u64", "unsigned integer", 0, u64::MAX) {
            Ok((span, _, mag)) => Ok(Value { value: mag, span }),
            Err(e) => Err(e),
        }
    }
}

impl LogixType for i8 {
    fn descriptor() -> LogixTypeDescriptor {
        LogixTypeDescriptor { name: "i8", doc: "", value: LogixValueDescriptor::Native }
    }

    fn default_value() -> Option<Self> {
        None
    }

    fn logix_parse(p: &mut LogixParser) -> (r: Result<Value<Self>, ParseError>)
        ensures
            old(p).state.eof ==> r is Err,
            r matches Err(e) ==> (e matches ParseError::UnexpectedToken {
                while_parsing: wp,
                wanted: w,
                ..
            } ==> wp == "i8" && w == Wanted::LitNum("signed integer")),
            !old(p).state.eof ==> ({
                let d = spec_drive(
                    old(p).file.spec_data(),
                    old(p).state,
                    old(p).state.last_was_newline,
                );
                let res = spec_parse_token(old(p).file.spec_data().skip(d.emit.cur_pos as int));
                match d.token {
                    Ok(t) => (match t {
                        TokenView::LitNum(txt) => (match spec_parse_int(txt) {
                            Some(n) => ((r is Ok) <==> -(128 as int) <= n <= 127) && (r
                                matches Ok(v) ==> v.value as int == n && span_matches(
                                v.span,
                                old(p).file,
                                d.emit,
                                res.start,
                                res.end,
                            )),
                            None => r is Err,
                        }),
                        _ => r is Err,
                    }),
                    Err(_) => r is Err,
                }
            }),
    {
        match parse_int_token(p, "i8", "signed integer", 128, 127) {
            Ok((span, neg, mag)) => Ok(
                Value {
                    value: if neg {
                        (-(mag as i16)) as i8
                    } else {
                        mag as i8
                    },
                    span,
                },
            ),
            Err(e) => Err(e),
        }
    }
}

impl LogixType for i16 {
    fn descriptor() -> LogixTypeDescriptor {
        LogixTypeDescriptor { name: "i16", doc: "", value: LogixValueDescriptor::Native }
    }

    fn default_value() -> Option<Self> {
        None
    }

    fn logix_parse(p: &mut LogixParser) -> (r: Result<Value<Self>, ParseError>)
        ensures
            old(p).state.eof ==> r is Err,
            r matches Err(e) ==> (e matches ParseError::UnexpectedToken {
                while_parsing: wp,
                wanted: w,
                ..
            } ==> wp == "i16" && w == Wanted::LitNum("signed integer")),
            !old(p).state.eof ==> ({
                let d = spec_drive(
                    old(p).file.spec_data(),
                    old(p).state,
                    old(p).state.last_was_newline,
                );
                let res = spec_parse_token(old(p).file.spec_data().skip(d.emit.cur_pos as int));
                match d.token {
                    Ok(t) => (match t {
                        TokenView::LitNum(txt) => (match spec_parse_int(txt) {
                            Some(n) => ((r is Ok) <==> -(32768 as int) <= n <= 32767) && (r
                                matches Ok(v) ==> v.value as int == n && span_matches(
                                v.span,
                                old(p).file,
                                d.emit,
                                res.start,
                                res.end,
                            )),
                            None => r is Err,
                        }),
                        _ => r is Err,
                    }),
                    Err(_) => r is Err,
                }
            }),
    {
        match parse_int_token(p, "i16", "signed integer", 32768, 32767) {
            Ok((span, neg, mag)) => Ok(
                Value {
                    value: if neg {
                        (-(mag as i32)) as i16
                    } else {
                        mag as i16
                    },
                    span,
                },
            ),
            Err(e) => Err(e),
        }
    }
}

impl LogixType for i32 {
    fn descriptor() -> LogixTypeDescriptor {
        LogixTypeDescriptor { name: "i32", doc: "", value: LogixValueDescriptor::Native }
    }

    fn default_value() -> Option<Self> {
        None
    }

    fn logix_parse(p: &mut LogixParser) -> (r: Result<Value<Self>, ParseError>)
        ensures
            old(p).state.eof ==> r is Err,
            r matches Err(e) ==> (e matches ParseError::UnexpectedToken {
                while_parsing: wp,
                wanted: w,
                ..
            } ==> wp == "i32" && w == Wanted::LitNum("signed integer")),
            !old(p).state.eof ==> ({
                let d = spec_drive(
                    old(p).file.spec_data(),
                    old(p).state,
                    old(p).state.last_was_newline,
                );
                let res = spec_parse_token(old(p).file.spec_data().skip(d.emit.cur_pos as int));
                match d.token {
                    Ok(t) => (match t {
                        TokenView::LitNum(txt) => (match spec_parse_int(txt) {
                            Some(n) => ((r is Ok) <==> -(0x8000_0000 as int) <= n <= 0x7fff_ffff) && (r
                                matches Ok(v) ==> v.value as int == n && span_matches(
                                v.span,
                                old(p).file,
                                d.emit,
                                res.start,
                                res.end,
                            )),
                            None => r is Err,
                        }),
                        _ => r is Err,
                    }),
                    Err(_) => r is Err,
                }
            }),
    {
        match parse_int_token(p, "i32", "signed integer", 0x8000_0000, 0x7fff_ffff) {
            Ok((span, neg, mag)) => Ok(
                Value {
                    value: if neg {
                        (-(mag as i64)) as i32
                    } else {
                        mag as i32
                    },
                    span,
                },
            ),
            Err(e) => Err(e),
        }
    }
}

impl LogixType for i64 {
    fn descriptor() -> LogixTypeDescriptor {
        LogixTypeDescriptor { name: "i64", doc: "", value: LogixValueDescriptor::Native }
    }

    fn default_value() -> Option<Self> {
        None
    }

    fn logix_parse(p: &mut LogixParser) -> (r: Result<Value<Self>, ParseError>)
        ensures
            old(p).state.eof ==> r is Err,
            r matches Err(e) ==> (e matches ParseError::UnexpectedToken {
                while_parsing: wp,
                wanted: w,
                ..
            } ==> wp == "i64" && w == Wanted::LitNum("signed integer")),
            !old(p).state.eof ==> ({
                let d = spec_drive(
                    old(p).file.spec_data(),
                    old(p).state,
                    old(p).state.last_was_newline,
                );
                let res = spec_parse_token(old(p).file.spec_data().skip(d.emit.cur_pos as int));
                match d.token {
                    Ok(t) => (match t {
                        TokenView::LitNum(txt) => (match spec_parse_int(txt) {
                            Some(n) => ((r is Ok) <==> i64::MIN <= n <= i64::MAX) && (r
                                matches Ok(v) ==> v.value as int == n && span_matches(
                                v.span,
                                old(p).file,
                                d.emit,
                                res.start,
                                res.end,
                            )),
                            None => r is Err,
                        }),
                        _ => r is Err,
                    }),
                    Err(_) => r is Err,
                }
            }),
    {
        match parse_int_token(
            p,
            "i64",
            "signed integer",
            0x8000_0000_0000_0000,
            0x7fff_ffff_ffff_ffff,
        ) {
            Ok((span, neg, mag)) => Ok(
                Value {
                    value: if neg {
                        if mag == 0x8000_0000_0000_0000 {
                            i64::MIN
                        } else {
                            -(mag as i64)
                        }
                    } else {
                        mag as i64
                    },
                    span,
                },
            ),
            Err(e) => Err(e),
        }
    }
}

impl<T: LogixType> LogixType for Option<T> {
    fn descriptor() -> LogixTypeDescriptor {
        T::descriptor()
    }

    fn default_value() -> Option<Self> {
        Some(None)
    }

    fn logix_parse(p: &mut LogixParser) -> (r: Result<Value<Self>, ParseError>)
        ensures
            r matches Ok(v) ==> v.value is Some,
    {
        match T::logix_parse(p) {
            Ok(v) => {
                let Value { value, span } = v;
                Ok(Value { value: Some(value), span })
            },
            Err(e) => Err(e),
        }
    }
}


} // verus!
