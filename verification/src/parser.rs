//! The parser driver: wraps a cached file, advances the tokenizer, collapses
//! newline runs, skips comments, latches end-of-file, and offers the
//! primitives the schema-driven parsers build on.

pub mod delimited;

use crate::error::{ParseError, TokenErrorView, Wanted};
use crate::loader::{CachedFile, LogixLoader};
use crate::scan::{cap_usize, sat_add};
use crate::span::SourceSpan;
use crate::token::parse::parse_token;
use crate::token::rules::{spec_parse_token, SpecRes};
use crate::token::{spec_type_name, Token, TokenView};
use crate::types::string::ShortStr;
use crate::type_trait::{LogixType, Value};
use vstd::prelude::*;

verus! {

/// The driver's running position inside its file.
#[derive(Debug, PartialEq, Eq, Clone, Copy)]
pub struct ParseState {
    /// Byte offset of the next token.
    pub cur_pos: usize,
    /// Column (0-based) of that offset on its line.
    pub cur_col: usize,
    /// Line (1-based) of that offset.
    pub cur_ln: usize,
    /// The token emitted last was a newline (used to collapse blank runs).
    pub last_was_newline: bool,
    /// The end-of-file newline has been emitted; it repeats forever.
    pub eof: bool,
}

/// The parser driver used by the `LogixType` contract.
pub struct LogixParser {
    pub file: CachedFile,
    pub state: ParseState,
    pub loader: LogixLoader,
}

/// The token or error the classification table yields at position `p` of
/// `data` is `t`, and `s` points at its byte range.
pub open spec fn token_at(data: Seq<u8>, p: int, t: TokenView, s: SourceSpan) -> bool {
    let res = spec_parse_token(data.skip(p));
    &&& res.token == Result::<TokenView, TokenErrorView>::Ok(t)
    &&& s.spec_pos() == p + res.start
}

/// Any warning carried by `e` is a duplicate-map-entry report whose span
/// points at a real identifier token of `data` holding the duplicated key.
pub open spec fn dup_warning_witnessed(data: Seq<u8>, e: crate::error::ParseError) -> bool {
    e matches ParseError::Warning(w) ==> (w matches crate::error::Warn::DuplicateMapEntry {
        span,
        key,
    } && exists|q: int| token_at(data, q, TokenView::Ident(key@), span))
}

/// The token-level error the classification table yields at position `p`
/// of `data` is `e`, and `s` points at its byte range.
pub open spec fn token_err_at(data: Seq<u8>, p: int, e: TokenErrorView, s: SourceSpan) -> bool {
    let res = spec_parse_token(data.skip(p));
    &&& res.token == Result::<TokenView, TokenErrorView>::Err(e)
    &&& s.spec_pos() == cap_usize(p + res.start)
}


/// The state after consuming one tokenizer result: the position advances
/// by the consumed length (clamped to the buffer), the line count grows by
/// the lines crossed, and the column either advances or is recomputed
/// from the new position after a multi-line token.
pub open spec fn spec_advance(data: Seq<u8>, st: ParseState, res: SpecRes) -> ParseState {
    let np0 = cap_usize(st.cur_pos + res.len);
    let np = if np0 < st.cur_pos {
        st.cur_pos as int
    } else {
        np0
    };
    let new_pos = if np > data.len() {
        data.len() as int
    } else {
        np
    };
    ParseState {
        cur_pos: new_pos as usize,
        cur_ln: if res.lines > 0 {
            cap_usize(st.cur_ln + res.lines) as usize
        } else {
            st.cur_ln
        },
        cur_col: if res.lines > 0 {
            if res.len == 1 {
                0
            } else {
                crate::scan::col_of(data, new_pos) as usize
            }
        } else {
            cap_usize(st.cur_col + res.len) as usize
        },
        last_was_newline: false,
        eof: st.eof,
    }
}

/// What one driver step yields: the state after it, the position state at
/// the moment the emitted token (or error) was read, and the token or
/// token-level error itself.
pub ghost struct DriveRes {
    pub state: ParseState,
    pub emit: ParseState,
    pub token: Result<TokenView, TokenErrorView>,
}

/// The driver's one-step function: tokenize at the current position,
/// skip comments, collapse an interior newline onto a preceding one, and
/// emit the first meaningful token, with the newline flags updated.
/// `next_token` is proved equal to this on every non-latched driver.
pub open spec fn spec_drive(data: Seq<u8>, st: ParseState, last_was: bool) -> DriveRes
    decreases data.len() - st.cur_pos,
    when 0 <= st.cur_pos <= data.len() && data.len() < usize::MAX - 4
    via spec_drive_decreases
{
    let res = spec_parse_token(data.skip(st.cur_pos as int));
    let st1 = spec_advance(data, st, res);
    match res.token {
        Ok(t) => if t is Comment {
            spec_drive(data, st1, last_was)
        } else if t == TokenView::Newline(false) && last_was {
            spec_drive(data, st1, last_was)
        } else {
            DriveRes {
                state: match t {
                    TokenView::Newline(b) => ParseState {
                        last_was_newline: true,
                        eof: b,
                        ..st1
                    },
                    _ => st1,
                },
                emit: ParseState { last_was_newline: false, ..st },
                token: Ok(t),
            }
        },
        Err(e) => DriveRes {
            state: st1,
            emit: ParseState { last_was_newline: false, ..st },
            token: Err(e),
        },
    }
}

#[via_fn]
proof fn spec_drive_decreases(data: Seq<u8>, st: ParseState, last_was: bool) {
    let s = data.skip(st.cur_pos as int);
    let res = spec_parse_token(s);
    crate::token::rules::lemma_token_range_in_bounds(s);
    match res.token {
        Ok(t) => {
            if t is Comment {
                lemma_comment_progress(s, res);
            } else if t == TokenView::Newline(false) {
                lemma_newline_progress(s, res);
            }
            if t is Comment || t == TokenView::Newline(false) {
                assert(res.len >= 1 && res.len <= s.len());
                assert(s.len() == data.len() - st.cur_pos);
                assert(cap_usize(st.cur_pos + res.len) == st.cur_pos + res.len);
                assert(spec_advance(data, st, res).cur_pos == st.cur_pos + res.len);
            }
        },
        Err(_) => {},
    }
}

/// How the driver step settles the flags: a newline emission latches
/// end-of-file exactly when it is the end-of-file newline and marks the
/// newline flag; every other outcome clears the newline flag and leaves
/// the latch alone.
pub proof fn lemma_drive_flags(data: Seq<u8>, st: ParseState, last_was: bool)
    requires
        0 <= st.cur_pos <= data.len(),
        data.len() < usize::MAX - 4,
    ensures
        ({
            let d = spec_drive(data, st, last_was);
            &&& (d.token matches Ok(t) ==> (match t {
                TokenView::Newline(b) => d.state.eof == b && d.state.last_was_newline,
                _ => d.state.eof == st.eof && !d.state.last_was_newline,
            }))
            &&& (d.token is Err ==> d.state.eof == st.eof && !d.state.last_was_newline)
            &&& d.emit.eof == st.eof
            &&& st.cur_pos <= d.emit.cur_pos <= data.len()
            &&& (d.token matches Ok(t) ==> !(t is Comment))
            &&& d.state.cur_pos <= data.len()
            &&& (d.token is Ok ==> st.cur_pos <= d.state.cur_pos)
            &&& (d.token matches Ok(t) ==> (t != TokenView::Newline(true) ==> d.state.cur_pos
                > st.cur_pos))
            &&& spec_parse_token(data.skip(d.emit.cur_pos as int)).token == d.token
            &&& (d.token is Ok ==> d.emit.cur_pos + spec_parse_token(
                data.skip(d.emit.cur_pos as int),
            ).start <= d.state.cur_pos)
        }),
    decreases data.len() - st.cur_pos,
{
    let s = data.skip(st.cur_pos as int);
    let res = spec_parse_token(s);
    crate::token::rules::lemma_token_range_in_bounds(s);
    let st1 = spec_advance(data, st, res);
    match res.token {
        Ok(t) => {
            if t is Comment {
                lemma_comment_progress(s, res);
                lemma_drive_flags(data, st1, last_was);
            } else if t == TokenView::Newline(false) && last_was {
                lemma_newline_progress(s, res);
                lemma_drive_flags(data, st1, last_was);
            } else if t == TokenView::Newline(false) {
                lemma_newline_progress(s, res);
            } else if !(t matches TokenView::Newline(_)) {
                lemma_token_progress(s, res);
            }
        },
        Err(_) => {},
    }
}

/// The span `s` is the one the driver builds for the byte range
/// `[start, end)` of the token read at `emit`: it points into `file` at
/// the absolute position, on `emit`'s line, and carries the exact columns
/// whenever they fit in 16 bits.
pub open spec fn span_matches(
    s: SourceSpan,
    file: CachedFile,
    emit: ParseState,
    start: int,
    end: int,
) -> bool {
    &&& s.file.same_file(&file)
    &&& s.spec_pos() == cap_usize(emit.cur_pos + start)
    &&& s.spec_line() == emit.cur_ln
    &&& s.spec_last_line() == emit.cur_ln
    &&& s.is_single_line()
    &&& (emit.cur_col + start + (end - start) <= 65535 && start <= end && emit.cur_pos + start
        <= usize::MAX ==> s.spec_col() == emit.cur_col + start && s.spec_end_col() == emit.cur_col
        + end && s.spec_byte_end() == emit.cur_pos + end)
}

/// The driver step at `st` emits exactly the token `t` with the span `s`.
pub open spec fn drive_emits(data: Seq<u8>, file: CachedFile, st: ParseState, t: TokenView,
    s: SourceSpan) -> bool {
    let d = spec_drive(data, st, st.last_was_newline);
    let res = spec_parse_token(data.skip(d.emit.cur_pos as int));
    &&& d.token == Result::<TokenView, TokenErrorView>::Ok(t)
    &&& span_matches(s, file, d.emit, res.start, res.end)
}

impl LogixParser {
    /// The driver's position stays inside its file, whose size stays
    /// addressable.
    pub open spec fn wf(&self) -> bool {
        &&& self.state.cur_pos <= self.file.spec_data().len()
        &&& self.file.spec_data().len() < usize::MAX - 4
    }

    /// A fresh driver over `file`, with no filesystem behind it.
    pub fn new(file: &CachedFile) -> (r: LogixParser)
        ensures
            r.wf(),
            r.file.same_file(file),
            r.state.cur_pos == 0 && r.state.cur_col == 0 && r.state.cur_ln == 1,
            r.state.last_was_newline && !r.state.eof,
    {
        Self::with_loader(LogixLoader::in_memory(), file)
    }

    /// A fresh driver over `file` that resolves inclusions through
    /// `loader`.
    pub fn with_loader(loader: LogixLoader, file: &CachedFile) -> (r: LogixParser)
        ensures
            r.wf(),
            r.file.same_file(file),
            r.state.cur_pos == 0 && r.state.cur_col == 0 && r.state.cur_ln == 1,
            r.state.last_was_newline && !r.state.eof,
            r.loader == loader,
    {
        let file = file.clone();
        let _n = file.data_len();
        LogixParser {
            file,
            state: ParseState {
                cur_pos: 0,
                cur_col: 0,
                cur_ln: 1,
                last_was_newline: true,
                eof: false,
            },
            loader,
        }
    }

    /// Hand the loader back (for example after a parse driven by it).
    pub fn into_loader(self) -> (r: LogixLoader)
        ensures
            r == self.loader,
    {
        self.loader
    }

    /// Promote a warning; warnings are currently treated as errors.
    pub fn warning(&self, warning: crate::error::Warn) -> (r: Result<(), ParseError>)
        ensures
            r == Result::<(), ParseError>::Err(ParseError::Warning(warning)),
    {
        Err(ParseError::Warning(warning))
    }

    /// An empty span at the current position.
    pub fn cur_span(&self) -> (r: SourceSpan)
        ensures
            r.file.same_file(&self.file),
            r.spec_pos() == self.state.cur_pos,
            r.spec_line() == self.state.cur_ln,
            r.is_single_line(),
            span_matches(r, self.file, self.state, 0, 0),
    {
        self.calc_span(0, 0)
    }

    /// The span of the byte range `[rs, re)` relative to the current
    /// position.
    fn calc_span(&self, rs: usize, re: usize) -> (r: SourceSpan)
        ensures
            r.file.same_file(&self.file),
            r.spec_pos() == cap_usize(self.state.cur_pos + rs),
            r.spec_line() == self.state.cur_ln,
            r.spec_last_line() == self.state.cur_ln,
            r.is_single_line(),
            self.state.cur_col + rs + (re - rs) <= 65535 && rs <= re && self.state.cur_pos + rs
                <= usize::MAX ==> (r.spec_col() == self.state.cur_col + rs && r.spec_end_col()
                == self.state.cur_col + re && r.spec_byte_end() == self.state.cur_pos + re),
    {
        let len = if re >= rs {
            re - rs
        } else {
            0
        };
        SourceSpan::new_clamped(
            &self.file,
            sat_add(self.state.cur_pos, rs),
            self.state.cur_ln,
            sat_add(self.state.cur_col, rs),
            len,
        )
    }

    /// Pull the next meaningful token: comments are skipped, runs of blank
    /// lines collapse into one newline, and once the end-of-file newline
    /// has been emitted it repeats at the same position.  Never returns a
    /// comment; never returns two `Newline(false)` in a row; a token-level
    /// error surfaces as `ParseError::TokenError`.
    #[verifier::rlimit(80)]
    pub fn next_token(&mut self) -> (r: Result<(SourceSpan, Token), ParseError>)
        requires
            old(self).wf(),
        ensures
            final(self).wf(),
            final(self).file == old(self).file,
            final(self).loader == old(self).loader,
            final(self).state.cur_pos >= old(self).state.cur_pos,
            old(self).state.eof ==> final(self).state == old(self).state && (r matches Ok(p)
                && p.1@ == TokenView::Newline(true) && span_matches(
                p.0,
                old(self).file,
                old(self).state,
                0,
                0,
            )),
            !old(self).state.eof ==> ({
                let d = spec_drive(
                    old(self).file.spec_data(),
                    old(self).state,
                    old(self).state.last_was_newline,
                );
                let res = spec_parse_token(old(self).file.spec_data().skip(d.emit.cur_pos as int));
                &&& final(self).state == d.state
                &&& (match r {
                    Ok(p) => d.token == Result::<TokenView, TokenErrorView>::Ok(p.1@)
                        && span_matches(p.0, old(self).file, d.emit, res.start, res.end),
                    Err(e) => (e matches ParseError::TokenError { span, error } && d.token
                        == Result::<TokenView, TokenErrorView>::Err(error@) && span_matches(
                        span,
                        old(self).file,
                        d.emit,
                        res.start,
                        res.end,
                    )),
                })
            }),
            r matches Ok(p) ==> !(p.1@ is Comment),
            r matches Ok(p) ==> (p.1@ == TokenView::Newline(false) ==> !old(
                self,
            ).state.last_was_newline),
            !old(self).state.eof ==> (r matches Ok(p) ==> ((p.1@
                matches TokenView::Newline(_)) == final(self).state.last_was_newline)),
            r matches Ok(p) ==> ((p.1@ == TokenView::Newline(true)) == final(self).state.eof),
            !old(self).state.eof ==> (r matches Ok(p) ==> (p.1@ == TokenView::Newline(true)
                || final(self).state.cur_pos > old(self).state.cur_pos)),
            !old(self).state.eof ==> (r matches Ok(p) ==> exists|q: int|
                old(self).state.cur_pos <= q <= final(self).state.cur_pos && token_at(
                    old(self).file.spec_data(),
                    q,
                    p.1@,
                    p.0,
                )),
            r matches Err(e) ==> (e matches ParseError::TokenError { span, error } && exists|
                q: int,
            |
                old(self).state.cur_pos <= q && token_err_at(
                    old(self).file.spec_data(),
                    q,
                    error@,
                    span,
                )),
            r matches Ok(p) ==> p.0.file.same_file(&old(self).file),
            r matches Err(e) ==> !(e matches ParseError::FsError(_)) && !(e
                matches ParseError::Warning(_)),
    {
        if self.state.eof {
            let span = self.cur_span();
            return Ok((span, Token::Newline(true)));
        }
        let data_len = self.file.data_len();
        let last_was = self.state.last_was_newline;
        self.state.last_was_newline = false;
        loop
            invariant
                self.wf(),
                self.file == old(self).file,
                self.loader == old(self).loader,
                self.state.cur_pos >= old(self).state.cur_pos,
                data_len == self.file.spec_data().len(),
                !old(self).state.eof,
                !self.state.eof,
                !self.state.last_was_newline,
                last_was == old(self).state.last_was_newline,
                spec_drive(old(self).file.spec_data(), old(self).state, last_was) == spec_drive(
                    old(self).file.spec_data(),
                    self.state,
                    last_was,
                ),
            decreases data_len - self.state.cur_pos + 1,
        {
            let ghost st0 = self.state;
            let ghost q = self.state.cur_pos as int;
            let res = {
                let data = self.file.data();
                let buf = vstd::slice::slice_subrange(
                    data.as_slice(),
                    self.state.cur_pos,
                    data_len,
                );
                proof {
                    assert(buf@ =~= self.file.spec_data().skip(self.state.cur_pos as int));
                }
                parse_token(buf)
            };
            let ghost rv = res@;
            let span = self.calc_span(res.range.0, res.range.1);
            // Advance the position, clamping error-path overshoots to the
            // end of the buffer.
            let np = sat_add(self.state.cur_pos, res.len);
            let new_pos = if np > data_len {
                data_len
            } else {
                np
            };
            proof {
                if rv.token is Ok {
                    assert(res.len <= data_len - q);
                    assert(np == q + res.len);
                }
                assert(rv == spec_parse_token(old(self).file.spec_data().skip(q)));
            }
            self.state.cur_pos = new_pos;
            if res.lines > 0 {
                self.state.cur_ln = sat_add(self.state.cur_ln, res.lines);
                if res.len == 1 {
                    self.state.cur_col = 0;
                } else {
                    let data = self.file.data();
                    self.state.cur_col = crate::scan::col_at(data.as_slice(), new_pos);
                }
            } else {
                self.state.cur_col = sat_add(self.state.cur_col, res.len);
            }
            proof {
                assert(self.state == spec_advance(old(self).file.spec_data(), st0, rv));
            }
            match res.token {
                Ok(token) => {
                    match token {
                        Token::Comment(_) => {
                            proof {
                                lemma_comment_progress(old(self).file.spec_data().skip(q), rv);
                                assert(new_pos > q);
                                assert(spec_drive(old(self).file.spec_data(), st0, last_was)
                                    == spec_drive(
                                    old(self).file.spec_data(),
                                    self.state,
                                    last_was,
                                ));
                            }
                        },
                        Token::Newline(eof_flag) => {
                            if !eof_flag && last_was {
                                proof {
                                    lemma_newline_progress(old(self).file.spec_data().skip(q), rv);
                                    assert(new_pos > q);
                                    assert(spec_drive(old(self).file.spec_data(), st0, last_was)
                                        == spec_drive(
                                        old(self).file.spec_data(),
                                        self.state,
                                        last_was,
                                    ));
                                }
                            } else {
                                self.state.last_was_newline = true;
                                self.state.eof = eof_flag;
                                proof {
                                    if !eof_flag {
                                        lemma_newline_progress(
                                            old(self).file.spec_data().skip(q),
                                            rv,
                                        );
                                    }
                                    assert(token_at(
                                        old(self).file.spec_data(),
                                        q,
                                        TokenView::Newline(eof_flag),
                                        span,
                                    ));
                                    let d = spec_drive(
                                        old(self).file.spec_data(),
                                        old(self).state,
                                        last_was,
                                    );
                                    assert(d.emit == (ParseState {
                                        last_was_newline: false,
                                        ..st0
                                    }));
                                    assert(d.token == Result::<TokenView, TokenErrorView>::Ok(
                                        TokenView::Newline(eof_flag),
                                    ));
                                    assert(self.state == d.state);
                                }
                                return Ok((span, Token::Newline(eof_flag)));
                            }
                        },
                        _ => {
                            proof {
                                assert(rv.token == Result::<TokenView, TokenErrorView>::Ok(
                                    token@,
                                ));
                                assert(token_at(old(self).file.spec_data(), q, token@, span));
                                lemma_token_progress(old(self).file.spec_data().skip(q), rv);
                                let d = spec_drive(
                                    old(self).file.spec_data(),
                                    old(self).state,
                                    last_was,
                                );
                                assert(d.emit == (ParseState { last_was_newline: false, ..st0 }));
                                assert(d.token == Result::<TokenView, TokenErrorView>::Ok(
                                    token@,
                                ));
                                assert(self.state == d.state);
                            }
                            return Ok((span, token));
                        },
                    }
                },
                Err(error) => {
                    proof {
                        assert(token_err_at(old(self).file.spec_data(), q, error@, span));
                        let d = spec_drive(
                            old(self).file.spec_data(),
                            old(self).state,
                            last_was,
                        );
                        assert(d.emit == (ParseState { last_was_newline: false, ..st0 }));
                        assert(d.token == Result::<TokenView, TokenErrorView>::Err(error@));
                        assert(self.state == d.state);
                    }
                    return Err(ParseError::TokenError { span, error });
                },
            }
        }
    }

    /// Read the next token without consuming it.
    pub fn peek_token(&mut self) -> (r: Result<(SourceSpan, Token), ParseError>)
        requires
            old(self).wf(),
        ensures
            *final(self) == *old(self),
            r matches Ok(p) ==> !(p.1@ is Comment),
            !old(self).state.eof ==> (r matches Ok(p) ==> exists|q: int|
                old(self).state.cur_pos <= q && token_at(
                    old(self).file.spec_data(),
                    q,
                    p.1@,
                    p.0,
                )),
            old(self).state.eof ==> (r matches Ok(p) && p.1@ == TokenView::Newline(true)
                && span_matches(p.0, old(self).file, old(self).state, 0, 0)),
            !old(self).state.eof ==> ({
                let d = spec_drive(
                    old(self).file.spec_data(),
                    old(self).state,
                    old(self).state.last_was_newline,
                );
                let res = spec_parse_token(old(self).file.spec_data().skip(d.emit.cur_pos as int));
                match r {
                    Ok(p) => d.token == Result::<TokenView, TokenErrorView>::Ok(p.1@)
                        && span_matches(p.0, old(self).file, d.emit, res.start, res.end),
                    Err(e) => (e matches ParseError::TokenError { span, error } && d.token
                        == Result::<TokenView, TokenErrorView>::Err(error@) && span_matches(
                        span,
                        old(self).file,
                        d.emit,
                        res.start,
                        res.end,
                    )),
                }
            }),
    {
        let saved = self.state;
        let r = self.next_token();
        self.state = saved;
        proof {
            assert(*self =~= *old(self));
        }
        r
    }

    /// Consume the next token, which must equal `want`; a different token
    /// is reported as `UnexpectedToken` naming `want`.
    pub fn req_token(&mut self, while_parsing: &'static str, want: Token) -> (r: Result<
        SourceSpan,
        ParseError,
    >)
        requires
            old(self).wf(),
        ensures
            final(self).wf(),
            final(self).file == old(self).file,
            final(self).loader == old(self).loader,
            final(self).state.cur_pos >= old(self).state.cur_pos,
            !old(self).state.eof ==> (r matches Ok(span) ==> exists|q: int|
                old(self).state.cur_pos <= q && token_at(
                    old(self).file.spec_data(),
                    q,
                    want@,
                    span,
                )),
            r matches Ok(_) ==> (want@ == TokenView::Newline(true) || final(self).state.cur_pos
                > old(self).state.cur_pos),
            r matches Ok(_) ==> (want@ == TokenView::Newline(true) ==> final(self).state.eof),
            r matches Ok(span) ==> span.file.same_file(&old(self).file),
            r matches Err(e) ==> (e matches ParseError::UnexpectedToken {
                while_parsing: wp,
                wanted: w,
                ..
            } ==> wp == while_parsing && w == Wanted::Token(want)),
            r matches Err(e) ==> (e matches ParseError::UnexpectedToken { .. } || e
                matches ParseError::TokenError { .. }),
            old(self).state.eof ==> (match r {
                Ok(span) => want@ == TokenView::Newline(true) && final(self).state == old(
                    self,
                ).state,
                Err(e) => want@ != TokenView::Newline(true) && (e
                    matches ParseError::UnexpectedToken { got_token, .. } && got_token@
                    == spec_type_name(TokenView::Newline(true))),
            }),
            !old(self).state.eof ==> ({
                let d = spec_drive(
                    old(self).file.spec_data(),
                    old(self).state,
                    old(self).state.last_was_newline,
                );
                let res = spec_parse_token(old(self).file.spec_data().skip(d.emit.cur_pos as int));
                &&& (match r {
                    Ok(span) => d.token == Result::<TokenView, TokenErrorView>::Ok(want@)
                        && final(self).state == d.state && span_matches(
                        span,
                        old(self).file,
                        d.emit,
                        res.start,
                        res.end,
                    ),
                    Err(e) => (match d.token {
                        Ok(t) => t != want@ && final(self).state == d.state && (e
                            matches ParseError::UnexpectedToken { span, got_token, .. }
                            && got_token@ == spec_type_name(t) && span_matches(
                            span,
                            old(self).file,
                            d.emit,
                            res.start,
                            res.end,
                        )),
                        Err(ev) => (e matches ParseError::TokenError { span, error } && error@
                            == ev && span_matches(
                            span,
                            old(self).file,
                            d.emit,
                            res.start,
                            res.end,
                        )),
                    }),
                })
            }),
    {
        match self.next_token() {
            Ok((span, got_token)) => {
                if got_token.same_token(&want) {
                    proof {
                        assert(got_token@ == want@);
                    }
                    Ok(span)
                } else {
                    Err(
                        ParseError::UnexpectedToken {
                            span,
                            while_parsing,
                            wanted: Wanted::Token(want),
                            got_token: got_token.token_type_name(),
                        },
                    )
                }
            },
            Err(e) => Err(e),
        }
    }

    /// Consume the next token, which must be a newline (interior or
    /// end-of-file).
    pub fn req_newline(&mut self, while_parsing: &'static str) -> (r: Result<(), ParseError>)
        requires
            old(self).wf(),
        ensures
            final(self).wf(),
            final(self).file == old(self).file,
            final(self).loader == old(self).loader,
            final(self).state.cur_pos >= old(self).state.cur_pos,
            r matches Err(e) ==> (e matches ParseError::UnexpectedToken {
                while_parsing: wp,
                wanted: w,
                ..
            } ==> wp == while_parsing && w == Wanted::Token(Token::Newline(false))),
            r matches Err(e) ==> (e matches ParseError::UnexpectedToken { .. } || e
                matches ParseError::TokenError { .. }),
            old(self).state.eof ==> r is Ok && final(self).state == old(self).state,
            !old(self).state.eof ==> ({
                let d = spec_drive(
                    old(self).file.spec_data(),
                    old(self).state,
                    old(self).state.last_was_newline,
                );
                &&& final(self).state == d.state
                &&& ((r is Ok) <==> (d.token matches Ok(t) && t matches TokenView::Newline(_)))
            }),
    {
        match self.next_token() {
            Ok((_, Token::Newline(_))) => Ok(()),
            Ok((span, got_token)) => Err(
                ParseError::UnexpectedToken {
                    span,
                    while_parsing,
                    wanted: Wanted::Token(Token::Newline(false)),
                    got_token: got_token.token_type_name(),
                },
            ),
            Err(e) => Err(e),
        }
    }

    /// Read one `key: value` pair, or the closing brace that ends the run
    /// of pairs.
    pub fn read_key_value<T: LogixType>(
        &mut self,
        while_parsing: &'static str,
        end_brace: crate::token::Brace,
    ) -> (r: Result<Option<(Value<ShortStr>, Value<T>)>, ParseError>)
        requires
            old(self).wf(),
        ensures
            final(self).wf(),
            final(self).file.same_file(&old(self).file),
            final(self).state.cur_pos >= old(self).state.cur_pos,
            r matches Ok(Some(kv)) ==> kv.0.span.file.same_file(&old(self).file)
                && kv.1.span.file.same_file(&old(self).file),
            r matches Ok(Some(_)) ==> final(self).state.cur_pos > old(self).state.cur_pos,
            r matches Err(e) ==> !(e matches ParseError::FsError(_)),
            r matches Err(e) ==> dup_warning_witnessed(old(self).file.spec_data(), e),
            old(self).state.eof ==> r is Err,
            !old(self).state.eof ==> ({
                let d1 = spec_drive(
                    old(self).file.spec_data(),
                    old(self).state,
                    old(self).state.last_was_newline,
                );
                let res1 = spec_parse_token(
                    old(self).file.spec_data().skip(d1.emit.cur_pos as int),
                );
                &&& ((r matches Ok(p) && p is None) <==> d1.token == Result::<
                    TokenView,
                    TokenErrorView,
                >::Ok(TokenView::Brace { start: false, brace: end_brace }))
                &&& (r matches Ok(p) ==> (p matches Some(kv) ==> (d1.token matches Ok(t) && t
                    == TokenView::Ident(kv.0.value@) && span_matches(
                    kv.0.span,
                    old(self).file,
                    d1.emit,
                    res1.start,
                    res1.end,
                ))))
                &&& (d1.token matches Ok(t) ==> (!(t is Ident) && t != (TokenView::Brace {
                    start: false,
                    brace: end_brace,
                }) ==> (r matches Err(e) && e matches ParseError::UnexpectedToken {
                    got_token,
                    wanted,
                    ..
                } && wanted == Wanted::Ident && got_token@ == spec_type_name(t))))
                &&& (d1.token is Err ==> r is Err)
                &&& (d1.token matches Ok(t) ==> (t is Ident ==> ({
                    let d2 = spec_drive(
                        old(self).file.spec_data(),
                        d1.state,
                        d1.state.last_was_newline,
                    );
                    &&& (d2.token matches Ok(t2) ==> (t2 != TokenView::Delim(
                        crate::token::Delim::Colon,
                    ) ==> (r matches Err(e) && e matches ParseError::UnexpectedToken {
                        got_token,
                        wanted,
                        while_parsing: wp2,
                        ..
                    } && got_token@ == spec_type_name(t2) && wanted == Wanted::Token(
                        Token::Delim(crate::token::Delim::Colon),
                    ) && wp2 == while_parsing)))
                    &&& (d2.token is Err ==> r is Err)
                })))
            }),
    {
        let ghost st0 = old(self).state;
        let ghost gdata = old(self).file.spec_data();
        match self.next_token() {
            Ok((span, Token::Ident(key))) => {
                let key = Value { value: ShortStr::new(key.as_str()), span };
                proof {
                    if !st0.eof {
                        lemma_drive_flags(gdata, st0, st0.last_was_newline);
                    }
                }
                match self.req_token(while_parsing, Token::Delim(crate::token::Delim::Colon)) {
                    Ok(_) => {},
                    Err(e) => {
                        return Err(e);
                    },
                }
                let value = match T::logix_parse(self) {
                    Ok(v) => v,
                    Err(e) => {
                        return Err(e);
                    },
                };
                match self.req_newline(while_parsing) {
                    Ok(_) => {},
                    Err(e) => {
                        return Err(e);
                    },
                }
                Ok(Some((key, value)))
            },
            Ok((span, Token::Brace { start: false, brace })) => {
                if brace == end_brace {
                    Ok(None)
                } else {
                    let got = Token::Brace { start: false, brace };
                    Err(
                        ParseError::UnexpectedToken {
                            span,
                            while_parsing,
                            wanted: Wanted::Ident,
                            got_token: got.token_type_name(),
                        },
                    )
                }
            },
            Ok((span, got_token)) => Err(
                ParseError::UnexpectedToken {
                    span,
                    while_parsing,
                    wanted: Wanted::Ident,
                    got_token: got_token.token_type_name(),
                },
            ),
            Err(e) => Err(e),
        }
    }

    /// Require that nothing but trailing blank lines and comments remain:
    /// one newline (interior or end-of-file), then the end-of-file
    /// sentinel itself.  On success the driver has latched end-of-file;
    /// any remaining token is refused wanting the end-of-file newline.
    pub fn finish_parse(&mut self, while_parsing: &'static str) -> (r: Result<(), ParseError>)
        requires
            old(self).wf(),
        ensures
            final(self).wf(),
            final(self).file == old(self).file,
            r matches Ok(_) ==> final(self).state.eof,
            r matches Err(e) ==> (e matches ParseError::UnexpectedToken {
                while_parsing: wp,
                wanted: w,
                ..
            } ==> wp == while_parsing && (w == Wanted::Token(Token::Newline(false)) || w
                == Wanted::Token(Token::Newline(true)))),
            r matches Err(e) ==> (e matches ParseError::UnexpectedToken { .. } || e
                matches ParseError::TokenError { .. }),
            old(self).state.eof ==> r is Ok,
            !old(self).state.eof ==> ({
                let data = old(self).file.spec_data();
                let d1 = spec_drive(data, old(self).state, old(self).state.last_was_newline);
                (r is Ok) <==> (d1.token matches Ok(t1) && t1 matches TokenView::Newline(b) && (b
                    || spec_drive(data, d1.state, d1.state.last_was_newline).token
                    == Result::<TokenView, TokenErrorView>::Ok(TokenView::Newline(true))))
            }),
    {
        let ghost data = self.file.spec_data();
        let ghost st0 = self.state;
        match self.req_newline(while_parsing) {
            Ok(_) => {},
            Err(e) => {
                proof {
                    if !st0.eof {
                        let d1 = spec_drive(data, st0, st0.last_was_newline);
                        assert(!(d1.token matches Ok(t1) && t1 matches TokenView::Newline(_)));
                    }
                }
                return Err(e);
            },
        }
        let ghost st1 = self.state;
        match self.req_token(while_parsing, Token::Newline(true)) {
            Ok(_) => {
                proof {
                    if !st0.eof {
                        let d1 = spec_drive(data, st0, st0.last_was_newline);
                        lemma_drive_flags(data, st0, st0.last_was_newline);
                        assert(st1 == d1.state);
                        match d1.token {
                            Ok(t1) => {
                                match t1 {
                                    TokenView::Newline(b) => {
                                        if !b {
                                            assert(!st1.eof);
                                            assert(spec_drive(
                                                data,
                                                d1.state,
                                                d1.state.last_was_newline,
                                            ).token == Result::<
                                                TokenView,
                                                TokenErrorView,
                                            >::Ok(TokenView::Newline(true)));
                                        }
                                    },
                                    _ => {
                                        assert(false);
                                    },
                                }
                            },
                            Err(_) => {
                                assert(false);
                            },
                        }
                    }
                }
                Ok(())
            },
            Err(e) => {
                proof {
                    if !st0.eof {
                        let d1 = spec_drive(data, st0, st0.last_was_newline);
                        lemma_drive_flags(data, st0, st0.last_was_newline);
                        assert(st1 == d1.state);
                        match d1.token {
                            Ok(t1) => {
                                match t1 {
                                    TokenView::Newline(b) => {
                                        if b {
                                            assert(st1.eof);
                                            assert(false);
                                        } else {
                                            assert(!st1.eof);
                                            assert(spec_drive(
                                                data,
                                                d1.state,
                                                d1.state.last_was_newline,
                                            ).token != Result::<
                                                TokenView,
                                                TokenErrorView,
                                            >::Ok(TokenView::Newline(true)));
                                        }
                                    },
                                    _ => {},
                                }
                            },
                            Err(_) => {},
                        }
                    }
                }
                Err(e)
            },
        }
    }

    /// Open the file `path` refers to, through the loader.
    pub fn open_file(&mut self, path: &str) -> (r: Result<CachedFile, crate::error::FsError>)
        ensures
            final(self).file == old(self).file,
            final(self).state == old(self).state,
            final(self).loader.spec_files().len() >= old(self).loader.spec_files().len(),
            forall|i: int|
                0 <= i < old(self).loader.spec_files().len() ==> final(self).loader.spec_files()[i]
                    == old(self).loader.spec_files()[i],
            r matches Ok(f) ==> exists|i: int|
                0 <= i < final(self).loader.spec_files().len()
                    && final(self).loader.spec_files()[i].same_file(&f),
    {
        self.loader.open_file(path)
    }
}

/// A comment token always consumes at least one byte.
proof fn lemma_comment_progress(s: Seq<u8>, r: SpecRes)
    requires
        r == spec_parse_token(s),
        r.token matches Ok(t) && t is Comment,
    ensures
        r.len >= 1,
{
    let start = crate::token::rules::spec_skip(s);
    crate::scan::lemma_seek_not_props(s, 0, crate::scan::ByteSet::Blank);
    if start + 1 < s.len() && s[start + 1] == 47 {
        crate::scan::lemma_seek_in_props(s, start + 2, crate::scan::ByteSet::Nl);
    } else {
        lemma_block_end_bounds(s, start + 2, 0);
    }
}

/// A closed block comment ends at least two bytes past where it began.
proof fn lemma_block_end_bounds(s: Seq<u8>, i: int, level: int)
    requires
        0 <= i <= s.len(),
    ensures
        crate::token::rules::spec_block_end(s, i, level) matches Some(e) ==> i + 2 <= e
            <= s.len(),
    decreases s.len() - i,
{
    crate::scan::lemma_seek_in_props(s, i, crate::scan::ByteSet::CommentMark);
    let j = crate::scan::spec_seek_in(s, i, crate::scan::ByteSet::CommentMark);
    if j < s.len() {
        if j + 1 < s.len() && s[j] == 42 && s[j + 1] == 47 {
            if level != 0 {
                lemma_block_end_bounds(s, j + 2, level - 1);
            }
        } else if j + 1 < s.len() && s[j] == 47 && s[j + 1] == 42 {
            lemma_block_end_bounds(s, j + 2, level + 1);
        } else {
            lemma_block_end_bounds(s, j + 1, level);
        }
    }
}

/// A found pattern occurrence lies within the buffer.
proof fn lemma_find_sub_bounds(s: Seq<u8>, from: int, pat: Seq<u8>)
    requires
        0 <= from,
        pat.len() >= 1,
    ensures
        crate::token::rules::spec_find_sub(s, from, pat) matches Some(f) ==> from <= f && f
            + pat.len() <= s.len(),
    decreases s.len() - from,
{
    if from + pat.len() > s.len() {
    } else if s.subrange(from, from + pat.len()) == pat {
    } else {
        lemma_find_sub_bounds(s, from + 1, pat);
    }
}

/// Every accepted token other than an end-of-file newline consumes at
/// least one byte.
proof fn lemma_token_progress(s: Seq<u8>, r: SpecRes)
    requires
        r == spec_parse_token(s),
        r.token matches Ok(t) && !(t matches TokenView::Newline(_)) && !(t is Comment),
    ensures
        r.len >= 1,
{
    let start = crate::token::rules::spec_skip(s);
    crate::scan::lemma_seek_not_props(s, 0, crate::scan::ByteSet::Blank);
    if s.len() > 0 {
        let b = s[start];
        if crate::token::rules::is_ident_start(b) {
            crate::scan::lemma_seek_not_props(s, start, crate::scan::ByteSet::IdentTail);
        } else if crate::token::rules::is_num_start(b) {
            crate::scan::lemma_seek_not_props(s, start, crate::scan::ByteSet::NumTail);
        } else if b == 34 {
            lemma_basic_len(s, start);
        } else if b == 35 {
            lemma_tagged_len(s, start);
        }
    }
}

proof fn lemma_basic_len(s: Seq<u8>, start: int)
    requires
        0 <= start < s.len(),
        s[start] == 34,
        crate::token::rules::spec_basic(s, start).token is Ok,
    ensures
        crate::token::rules::spec_basic(s, start).len >= 1,
{
    lemma_basic_scan_bounds(s, start + 1, false);
}

/// A closing quote found by the string scan lies within the buffer, at or
/// after where the scan began.
proof fn lemma_basic_scan_bounds(s: Seq<u8>, pos: int, esc: bool)
    requires
        0 <= pos <= s.len() + 2,
    ensures
        crate::token::rules::spec_basic_scan(s, pos, esc)
            matches crate::token::rules::StrScan::Closed { quote, .. } ==> pos <= quote
            < s.len(),
    decreases s.len() + 2 - pos,
{
    if pos <= s.len() {
        crate::scan::lemma_seek_in_props(s, pos, crate::scan::ByteSet::StrStop);
        let j = crate::scan::spec_seek_in(s, pos, crate::scan::ByteSet::StrStop);
        if j < s.len() && s[j] != 34 && s[j] == 92 {
            lemma_basic_scan_bounds(s, j + 2, true);
        }
    }
}

proof fn lemma_tagged_len(s: Seq<u8>, start: int)
    requires
        0 <= start < s.len(),
        s[start] == 35,
        crate::token::rules::spec_tagged(s, start).token is Ok,
    ensures
        crate::token::rules::spec_tagged(s, start).len >= 1,
{
    crate::scan::lemma_seek_not_props(s, start, crate::scan::ByteSet::Hash);
    let he = crate::scan::spec_seek_not(s, start, crate::scan::ByteSet::Hash);
    if he != s.len() {
        let h = he - start;
        let pos = he;
        if crate::token::rules::spec_tag_prefix_at(s, pos) is Some {
            lemma_find_sub_bounds(s, pos + 4, crate::token::spec_suffix_bytes(h));
        }
    }
}

/// An interior newline token always consumes at least one byte.
proof fn lemma_newline_progress(s: Seq<u8>, r: SpecRes)
    requires
        r == spec_parse_token(s),
        r.token == Result::<TokenView, TokenErrorView>::Ok(TokenView::Newline(false)),
    ensures
        r.len >= 1,
{
    let start = crate::token::rules::spec_skip(s);
    crate::scan::lemma_seek_not_props(s, 0, crate::scan::ByteSet::Blank);
    if s.len() > 0 && s[start] == 10 {
        crate::scan::lemma_seek_not_props(s, start, crate::scan::ByteSet::NlBlank);
        assert(crate::scan::in_set(crate::scan::ByteSet::NlBlank, s[start]));
        if crate::scan::spec_seek_not(s, start, crate::scan::ByteSet::NlBlank) == start {
        }
    }
}

} // verus!
