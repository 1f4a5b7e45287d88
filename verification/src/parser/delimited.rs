//! The delimited-list reader: items separated by commas, newlines or both,
//! with an optional trailing comma before the closing brace.
//!
//! The decision for each incoming token is a pure function (`spec_step` /
//! `step`), so the separator discipline is a statement about that function:
//! from the state that follows a parsed item, no token can lead straight to
//! another item without a comma or newline in between (`lemma_separator`).

use crate::error::{ParseError, TokenErrorView, Wanted};
use crate::parser::{lemma_drive_flags, spec_drive, LogixParser, ParseState};
use crate::token::{spec_type_name, Brace, Delim, Token, TokenView};
use crate::type_trait::{LogixType, Value};
use vstd::prelude::*;

verus! {

/// Where the reader stands between tokens.
#[derive(Debug, PartialEq, Eq, Structural, Clone, Copy)]
pub enum State {
    /// Before the first item.
    Init,
    /// Right after a parsed item.
    ValueParsed,
    /// After one or more separators; which kinds were seen.
    GotDelim { newline: bool, comma: bool },
}

/// What to do with one incoming token.
#[derive(Debug, PartialEq, Eq, Structural, Clone, Copy)]
pub enum Decision {
    /// Stop before this token; `true` means an item starts here.
    Stop(bool),
    /// Consume the token and continue in the new state.
    Consume(State),
    /// Refuse the token with this wanted-code.
    Refuse(Wanted2),
}

/// The two wanted-codes the list reader can emit.
#[derive(Debug, PartialEq, Eq, Structural, Clone, Copy)]
pub enum Wanted2 {
    ItemDelim,
    ItemOrEnd,
}

/// The table of §the list rules: what each incoming token does in each
/// state.
pub open spec fn spec_step(st: State, t: TokenView) -> Decision {
    match t {
        TokenView::Brace { start: false, .. } => Decision::Stop(false),
        TokenView::Delim(Delim::Comma) => match st {
            State::Init => Decision::Refuse(Wanted2::ItemOrEnd),
            State::ValueParsed => Decision::Consume(
                State::GotDelim { newline: false, comma: true },
            ),
            State::GotDelim { newline, comma } => if comma {
                Decision::Refuse(Wanted2::ItemOrEnd)
            } else {
                Decision::Consume(State::GotDelim { newline, comma: true })
            },
        },
        TokenView::Newline(false) => match st {
            State::Init => Decision::Consume(State::Init),
            State::ValueParsed => Decision::Consume(
                State::GotDelim { newline: true, comma: false },
            ),
            State::GotDelim { newline: _, comma } => Decision::Consume(
                State::GotDelim { newline: true, comma },
            ),
        },
        TokenView::Newline(true) => Decision::Refuse(Wanted2::ItemOrEnd),
        TokenView::Delim(Delim::Colon) => match st {
            State::ValueParsed => Decision::Refuse(Wanted2::ItemDelim),
            _ => Decision::Refuse(Wanted2::ItemOrEnd),
        },
        TokenView::Comment(_) => Decision::Consume(st),
        _ => match st {
            State::Init => Decision::Stop(true),
            State::GotDelim { .. } => Decision::Stop(true),
            State::ValueParsed => Decision::Refuse(Wanted2::ItemDelim),
        },
    }
}

/// Executable mirror of `spec_step`.
pub fn step(st: State, t: &Token) -> (r: Decision)
    ensures
        r == spec_step(st, t@),
{
    match t {
        Token::Brace { start: false, .. } => Decision::Stop(false),
        Token::Delim(Delim::Comma) => match st {
            State::Init => Decision::Refuse(Wanted2::ItemOrEnd),
            State::ValueParsed => Decision::Consume(
                State::GotDelim { newline: false, comma: true },
            ),
            State::GotDelim { newline, comma } => if comma {
                Decision::Refuse(Wanted2::ItemOrEnd)
            } else {
                Decision::Consume(State::GotDelim { newline, comma: true })
            },
        },
        Token::Newline(false) => match st {
            State::Init => Decision::Consume(State::Init),
            State::ValueParsed => Decision::Consume(
                State::GotDelim { newline: true, comma: false },
            ),
            State::GotDelim { newline: _, comma } => Decision::Consume(
                State::GotDelim { newline: true, comma },
            ),
        },
        Token::Newline(true) => Decision::Refuse(Wanted2::ItemOrEnd),
        Token::Delim(Delim::Colon) => match st {
            State::ValueParsed => Decision::Refuse(Wanted2::ItemDelim),
            _ => Decision::Refuse(Wanted2::ItemOrEnd),
        },
        Token::Comment(_) => Decision::Consume(st),
        _ => match st {
            State::Init => Decision::Stop(true),
            State::GotDelim { .. } => Decision::Stop(true),
            State::ValueParsed => Decision::Refuse(Wanted2::ItemDelim),
        },
    }
}

/// The separator discipline: right after a parsed item no token starts a
/// new item, and the only way out of `ValueParsed` (other than stopping at
/// a closing brace or failing) is to consume a comma or an interior
/// newline.
pub proof fn lemma_separator(t: TokenView)
    ensures
        spec_step(State::ValueParsed, t) != Decision::Stop(true),
        forall|st2: State|
            spec_step(State::ValueParsed, t) == Decision::Consume(st2) ==> (t
                == TokenView::Delim(Delim::Comma) || t == TokenView::Newline(false) || (t
                is Comment && st2 == State::ValueParsed)),
        forall|st2: State|
            spec_step(State::ValueParsed, t) == Decision::Consume(st2) && !(t is Comment) ==> st2
                matches State::GotDelim { .. },
{
}

/// An item may start only from `Init` or `GotDelim`, never from
/// `ValueParsed`.
pub proof fn lemma_item_needs_separator(st: State, t: TokenView)
    ensures
        spec_step(st, t) == Decision::Stop(true) ==> st != State::ValueParsed,
{
}


/// Where one scan for the next item ends.
pub ghost enum ScanOutcome {
    /// An item starts at this driver state; the reader is in this state.
    Item(ParseState, State),
    /// A closing brace sits at this driver state; the reader is in this
    /// state.
    End(ParseState, State),
    /// The token at this driver state is refused with this wanted-code.
    Refuse(Wanted2, ParseState, State),
    /// A token-level error sits at this driver state.
    Fail(ParseState),
}

/// The scan as a function: feed the driver's tokens through the step
/// table until one of them stops, is refused, or fails.
/// `skip_until_next` is proved equal to this.
pub open spec fn spec_scan(data: Seq<u8>, pst: ParseState, dst: State) -> ScanOutcome
    decreases data.len() - pst.cur_pos,
    when 0 <= pst.cur_pos <= data.len() && data.len() < usize::MAX - 4
    via spec_scan_decreases
{
    if pst.eof {
        // The latched driver repeats the end-of-file newline, which the
        // table refuses in every state.
        ScanOutcome::Refuse(Wanted2::ItemOrEnd, pst, dst)
    } else {
        let d = spec_drive(data, pst, pst.last_was_newline);
        match d.token {
            Ok(t) => match spec_step(dst, t) {
                Decision::Stop(true) => ScanOutcome::Item(pst, dst),
                Decision::Stop(false) => ScanOutcome::End(pst, dst),
                Decision::Consume(d2) => spec_scan(data, d.state, d2),
                Decision::Refuse(w) => ScanOutcome::Refuse(w, pst, dst),
            },
            Err(_) => ScanOutcome::Fail(pst),
        }
    }
}

#[via_fn]
proof fn spec_scan_decreases(data: Seq<u8>, pst: ParseState, dst: State) {
    if !pst.eof {
        lemma_drive_flags(data, pst, pst.last_was_newline);
        let d = spec_drive(data, pst, pst.last_was_newline);
        match d.token {
            Ok(t) => {
                match spec_step(dst, t) {
                    Decision::Consume(_) => {
                        // Only commas, interior newlines and comments are
                        // consumed; the driver never yields a comment, so
                        // the position strictly advanced.
                        assert(t != TokenView::Newline(true));
                    },
                    _ => {},
                }
            },
            Err(_) => {},
        }
    }
}

/// The stopping states a scan hands back are reachable driver states:
/// never latched for an item or an end, and within the buffer.
pub proof fn lemma_scan_props(data: Seq<u8>, pst: ParseState, dst: State)
    requires
        0 <= pst.cur_pos <= data.len(),
        data.len() < usize::MAX - 4,
    ensures
        ({
            let sc = spec_scan(data, pst, dst);
            match sc {
                ScanOutcome::Item(q, dd) => !q.eof && pst.cur_pos <= q.cur_pos <= data.len()
                    && spec_scan(data, q, dd) == sc,
                ScanOutcome::End(q, dd) => !q.eof && pst.cur_pos <= q.cur_pos <= data.len()
                    && spec_scan(data, q, dd) == sc,
                ScanOutcome::Refuse(_, q, _) => pst.cur_pos <= q.cur_pos <= data.len(),
                ScanOutcome::Fail(q) => pst.cur_pos <= q.cur_pos <= data.len(),
            }
        }),
    decreases data.len() - pst.cur_pos,
{
    if !pst.eof {
        lemma_drive_flags(data, pst, pst.last_was_newline);
        let d = spec_drive(data, pst, pst.last_was_newline);
        match d.token {
            Ok(t) => {
                match spec_step(dst, t) {
                    Decision::Consume(d2) => {
                        assert(t != TokenView::Newline(true));
                        lemma_scan_props(data, d.state, d2);
                    },
                    _ => {},
                }
            },
            Err(_) => {},
        }
    }
}

/// Reads the items of one delimited list off a driver.
#[derive(Debug, PartialEq, Eq)]
pub struct ParseDelimited {
    pub while_parsing: &'static str,
    pub state: State,
}

impl ParseDelimited {
    /// A reader at the start of a list.
    pub fn new(while_parsing: &'static str) -> (r: ParseDelimited)
        ensures
            r.state == State::Init,
            r.while_parsing == while_parsing,
    {
        ParseDelimited { while_parsing, state: State::Init }
    }

    /// Skip separators and comments up to the next item or the list's end.
    /// Yields true exactly when an item starts at the driver's position;
    /// the token that stops the scan is not consumed.
    pub fn skip_until_next(&mut self, p: &mut LogixParser) -> (r: Result<bool, ParseError>)
        requires
            old(p).wf(),
        ensures
            final(p).wf(),
            final(p).file == old(p).file,
            final(p).state.cur_pos >= old(p).state.cur_pos,
            final(self).while_parsing == old(self).while_parsing,
            r matches Ok(true) ==> final(self).state != State::ValueParsed,
            r matches Err(e) ==> !(e matches ParseError::FsError(_)),
            r matches Err(e) ==> !(e matches ParseError::Warning(_)),
            ({
                let sc = spec_scan(old(p).file.spec_data(), old(p).state, old(self).state);
                match sc {
                    ScanOutcome::Item(pst, dst) => r == Result::<bool, ParseError>::Ok(true)
                        && final(p).state == pst && final(self).state == dst,
                    ScanOutcome::End(pst, dst) => r == Result::<bool, ParseError>::Ok(false)
                        && final(p).state == pst && final(self).state == dst,
                    ScanOutcome::Refuse(w, pst, dst) => (r matches Err(e) && e
                        matches ParseError::UnexpectedToken { while_parsing: wp, wanted, .. }
                        && wp == old(self).while_parsing && wanted == (match w {
                        Wanted2::ItemDelim => Wanted::ItemDelim,
                        Wanted2::ItemOrEnd => Wanted::ItemOrEnd,
                    })) && final(p).state == pst && final(self).state == dst,
                    ScanOutcome::Fail(pst) => (r matches Err(e) && e
                        matches ParseError::TokenError { .. }) && final(p).state == pst,
                }
            }),
    {
        loop
            invariant
                p.wf(),
                p.file == old(p).file,
                p.state.cur_pos >= old(p).state.cur_pos,
                self.while_parsing == old(self).while_parsing,
                spec_scan(old(p).file.spec_data(), old(p).state, old(self).state) == spec_scan(
                    old(p).file.spec_data(),
                    p.state,
                    self.state,
                ),
            decreases p.file.spec_data().len() - p.state.cur_pos,
        {
            let saved = p.state;
            let ghost pos_before = p.state.cur_pos;
            let ghost eof_before = p.state.eof;
            let ghost dst0 = self.state;
            match p.next_token() {
                Ok((span, token)) => {
                    match step(self.state, &token) {
                        Decision::Stop(parse_value) => {
                            p.state = saved;
                            proof {
                                if parse_value {
                                    crate::parser::delimited::lemma_item_needs_separator(
                                        self.state,
                                        token@,
                                    );
                                }
                                assert(!eof_before);
                                assert(spec_scan(
                                    old(p).file.spec_data(),
                                    saved,
                                    dst0,
                                ) == (if parse_value {
                                    ScanOutcome::Item(saved, dst0)
                                } else {
                                    ScanOutcome::End(saved, dst0)
                                }));
                            }
                            return Ok(parse_value);
                        },
                        Decision::Consume(st2) => {
                            self.state = st2;
                            proof {
                                // A consumed token is a comma, an interior
                                // newline or a comment; none of those is the
                                // end-of-file newline, so the driver moved.
                                assert(token@ != TokenView::Newline(true));
                                assert(!eof_before);
                                assert(p.state.cur_pos > pos_before);
                                assert(spec_scan(old(p).file.spec_data(), saved, dst0)
                                    == spec_scan(
                                    old(p).file.spec_data(),
                                    p.state,
                                    self.state,
                                ));
                            }
                        },
                        Decision::Refuse(code) => {
                            let wanted = match code {
                                Wanted2::ItemDelim => Wanted::ItemDelim,
                                Wanted2::ItemOrEnd => Wanted::ItemOrEnd,
                            };
                            let e = ParseError::UnexpectedToken {
                                span,
                                while_parsing: self.while_parsing,
                                got_token: token.token_type_name(),
                                wanted,
                            };
                            p.state = saved;
                            proof {
                                assert(spec_scan(old(p).file.spec_data(), saved, dst0)
                                    == ScanOutcome::Refuse(code, saved, dst0));
                            }
                            return Err(e);
                        },
                    }
                },
                Err(e) => {
                    p.state = saved;
                    proof {
                        assert(!eof_before);
                        assert(spec_scan(old(p).file.spec_data(), saved, dst0)
                            == ScanOutcome::Fail(saved));
                    }
                    return Err(e);
                },
            }
        }
    }

    /// Parse the next item, or yield `None` at the list's end.
    pub fn next_item<T: LogixType>(&mut self, p: &mut LogixParser) -> (r: Result<
        Option<Value<T>>,
        ParseError,
    >)
        requires
            old(p).wf(),
        ensures
            final(p).wf(),
            final(p).file.same_file(&old(p).file),
            final(p).state.cur_pos >= old(p).state.cur_pos,
            r matches Ok(Some(v)) ==> v.span.file.same_file(&old(p).file),
            r matches Ok(Some(_)) ==> final(self).state == State::ValueParsed,
            r matches Ok(Some(_)) ==> final(p).state.cur_pos > old(p).state.cur_pos,
            final(self).while_parsing == old(self).while_parsing,
            r matches Err(e) ==> !(e matches ParseError::FsError(_)),
            r matches Err(e) ==> crate::parser::dup_warning_witnessed(
                old(p).file.spec_data(),
                e,
            ),
            ({
                let sc = spec_scan(old(p).file.spec_data(), old(p).state, old(self).state);
                match sc {
                    ScanOutcome::End(pst, dst) => (r matches Ok(v) && v is None)
                        && final(p).state == pst && final(self).state == dst,
                    ScanOutcome::Item(_, _) => !(r matches Ok(v) && v is None),
                    ScanOutcome::Refuse(_, _, _) => r is Err,
                    ScanOutcome::Fail(_) => r is Err,
                }
            }),
    {
        match self.skip_until_next(p) {
            Ok(true) => match T::logix_parse(p) {
                Ok(value) => {
                    self.state = State::ValueParsed;
                    Ok(Some(value))
                },
                Err(e) => Err(e),
            },
            Ok(false) => Ok(None),
            Err(e) => Err(e),
        }
    }

    /// Parse the next item, which must exist.
    pub fn req_next_item<T: LogixType>(&mut self, p: &mut LogixParser) -> (r: Result<
        Value<T>,
        ParseError,
    >)
        requires
            old(p).wf(),
        ensures
            final(p).wf(),
            final(p).file.same_file(&old(p).file),
            final(p).state.cur_pos >= old(p).state.cur_pos,
            final(self).while_parsing == old(self).while_parsing,
            r matches Ok(v) ==> v.span.file.same_file(&old(p).file),
            r matches Err(e) ==> !(e matches ParseError::FsError(_)),
            r matches Err(e) ==> crate::parser::dup_warning_witnessed(
                old(p).file.spec_data(),
                e,
            ),
            ({
                let sc = spec_scan(old(p).file.spec_data(), old(p).state, old(self).state);
                match sc {
                    ScanOutcome::End(_, _) => (r matches Err(e) && e
                        matches ParseError::UnexpectedToken { while_parsing: wp, wanted, .. }
                        && wp == old(self).while_parsing && wanted == Wanted::Item),
                    ScanOutcome::Refuse(_, _, _) => r is Err,
                    ScanOutcome::Fail(_) => r is Err,
                    ScanOutcome::Item(_, _) => true,
                }
            }),
    {
        match self.next_item(p) {
            Ok(Some(ret)) => Ok(ret),
            Ok(None) => {
                proof {
                    let data = old(p).file.spec_data();
                    let sc = spec_scan(data, old(p).state, old(self).state);
                    lemma_scan_props(data, old(p).state, old(self).state);
                    match sc {
                        ScanOutcome::End(pst, dst) => {
                            assert(spec_scan(data, pst, dst) == sc);
                            let d = spec_drive(data, pst, pst.last_was_newline);
                            assert(d.token is Ok);
                        },
                        _ => {
                            assert(false);
                        },
                    }
                }
                let (span, token) = match p.peek_token() {
                    Ok(pair) => pair,
                    Err(e) => {
                        proof {
                            assert(false);
                        }
                        return Err(e);
                    },
                };
                Err(
                    ParseError::UnexpectedToken {
                        span,
                        while_parsing: self.while_parsing,
                        got_token: token.token_type_name(),
                        wanted: Wanted::Item,
                    },
                )
            },
            Err(e) => Err(e),
        }
    }

    /// Require that the list ends here, at the closing `end_brace`.
    pub fn req_end(&mut self, p: &mut LogixParser, end_brace: Brace) -> (r: Result<
        (),
        ParseError,
    >)
        requires
            old(p).wf(),
        ensures
            final(p).wf(),
            final(p).file.same_file(&old(p).file),
            final(p).state.cur_pos >= old(p).state.cur_pos,
            r matches Err(e) ==> !(e matches ParseError::FsError(_)) && !(e
                matches ParseError::Warning(_)),
            ({
                let sc = spec_scan(old(p).file.spec_data(), old(p).state, old(self).state);
                match sc {
                    ScanOutcome::End(pst, dst) => ((r is Ok) <==> spec_drive(
                        old(p).file.spec_data(),
                        pst,
                        pst.last_was_newline,
                    ).token == Result::<TokenView, TokenErrorView>::Ok(
                        TokenView::Brace { start: false, brace: end_brace },
                    )) && (r is Ok ==> final(p).state == pst),
                    ScanOutcome::Item(_, _) => (r matches Err(e) && e
                        matches ParseError::UnexpectedToken { while_parsing: wp, wanted, .. }
                        && wp == old(self).while_parsing && wanted == Wanted::Token(
                        Token::Brace { start: false, brace: Brace::Square },
                    )),
                    ScanOutcome::Refuse(_, _, _) => r is Err,
                    ScanOutcome::Fail(_) => r is Err,
                }
            }),
    {
        let ghost sc0 = spec_scan(old(p).file.spec_data(), old(p).state, old(self).state);
        proof {
            lemma_scan_props(old(p).file.spec_data(), old(p).state, old(self).state);
        }
        let parse_value = match self.skip_until_next(p) {
            Ok(b) => b,
            Err(e) => {
                return Err(e);
            },
        };
        proof {
            let data = old(p).file.spec_data();
            match sc0 {
                ScanOutcome::Item(pst, dst) => {
                    assert(spec_scan(data, pst, dst) == sc0);
                    let d = spec_drive(data, pst, pst.last_was_newline);
                    assert(d.token is Ok);
                },
                ScanOutcome::End(pst, dst) => {
                    assert(spec_scan(data, pst, dst) == sc0);
                    let d = spec_drive(data, pst, pst.last_was_newline);
                    assert(d.token is Ok);
                },
                _ => {
                    assert(false);
                },
            }
        }
        let (span, token) = match p.peek_token() {
            Ok(pair) => pair,
            Err(e) => {
                proof {
                    assert(false);
                }
                return Err(e);
            },
        };
        let want = Token::Brace { start: false, brace: end_brace };
        if !parse_value && token.same_token(&want) {
            proof {
                assert(token@ == want@);
            }
            Ok(())
        } else {
            Err(
                ParseError::UnexpectedToken {
                    span,
                    while_parsing: self.while_parsing,
                    got_token: token.token_type_name(),
                    wanted: Wanted::Token(Token::Brace { start: false, brace: Brace::Square }),
                },
            )
        }
    }
}

} // verus!
