//! Fixed-size arrays and growable lists of config values.

use crate::error::{ParseError, TokenErrorView, Wanted};
use crate::parser::delimited::{lemma_scan_props, spec_scan, ParseDelimited, ScanOutcome, State};
use crate::parser::{spec_drive, LogixParser};
use crate::token::rules::spec_parse_token;
use crate::token::{spec_type_name, Brace, Token, TokenView};
use crate::type_trait::{LogixType, LogixTypeDescriptor, LogixValueDescriptor, Value};
use vstd::prelude::*;

verus! {

/// Relies on the standard conversion from a vector to an array of the
/// same length.
#[verifier::external_body]
fn vec_to_array<T, const N: usize>(v: Vec<T>) -> (r: [T; N])
    requires
        v@.len() == N,
    ensures
        r@ == v@,
{
    v.try_into().ok().unwrap()
}

impl<T: LogixType, const N: usize> LogixType for [T; N] {
    fn descriptor() -> LogixTypeDescriptor {
        LogixTypeDescriptor {
            name: "Array",
            doc: "a fixed size array",
            value: LogixValueDescriptor::Native,
        }
    }

    fn default_value() -> Option<Self> {
        None
    }

    fn logix_parse(p: &mut LogixParser) -> (r: Result<Value<Self>, ParseError>)
        ensures
            old(p).state.eof ==> r is Err,
            !old(p).state.eof ==> ({
                let d = spec_drive(
                    old(p).file.spec_data(),
                    old(p).state,
                    old(p).state.last_was_newline,
                );
                match d.token {
                    Ok(t) => (t != (TokenView::Brace { start: true, brace: Brace::Square }) ==> (
                    r matches Err(e) && e matches ParseError::UnexpectedToken {
                        got_token,
                        wanted,
                        while_parsing,
                        ..
                    } && got_token@ == spec_type_name(t) && wanted == Wanted::Token(
                        Token::Brace { start: true, brace: Brace::Square },
                    ) && while_parsing == "Array")),
                    Err(ev) => (r matches Err(e) && e matches ParseError::TokenError {
                        error,
                        ..
                    } && error@ == ev),
                }
            }),
            !old(p).state.eof ==> ({
                let data = old(p).file.spec_data();
                let d1 = spec_drive(data, old(p).state, old(p).state.last_was_newline);
                let res1 = spec_parse_token(data.skip(d1.emit.cur_pos as int));
                &&& (r matches Ok(v) ==> (v.span.spec_pos() == d1.emit.cur_pos + res1.start
                    && v.span.file.same_file(&old(p).file)))
                &&& (d1.token == Result::<TokenView, TokenErrorView>::Ok(
                    TokenView::Brace { start: true, brace: Brace::Square },
                ) ==> (match spec_scan(data, d1.state, State::Init) {
                    ScanOutcome::End(pst2, _) => ({
                        let d2 = spec_drive(data, pst2, pst2.last_was_newline);
                        &&& (N == 0 ==> ((r is Ok) <==> d2.token == Result::<
                            TokenView,
                            TokenErrorView,
                        >::Ok(TokenView::Brace { start: false, brace: Brace::Square })))
                        &&& (N > 0 ==> (r matches Err(e) && e
                            matches ParseError::UnexpectedToken {
                            while_parsing: wp,
                            wanted,
                            ..
                        } && wp == "Array" && wanted == Wanted::Item))
                    }),
                    ScanOutcome::Refuse(_, _, _) => r is Err,
                    ScanOutcome::Fail(_) => r is Err,
                    ScanOutcome::Item(_, _) => true,
                }))
            }),
    {
        let ghost data = old(p).file.spec_data();
        let ghost d1 = spec_drive(data, old(p).state, old(p).state.last_was_newline);
        let ghost res1 = spec_parse_token(data.skip(d1.emit.cur_pos as int));
        let open = match p.req_token("Array", Token::Brace { start: true, brace: Brace::Square })
            {
            Ok(s) => s,
            Err(e) => {
                return Err(e);
            },
        };
        proof {
            crate::parser::lemma_drive_flags(data, old(p).state, old(p).state.last_was_newline);
            crate::token::rules::lemma_token_range_in_bounds(data.skip(d1.emit.cur_pos as int));
            lemma_scan_props(data, p.state, State::Init);
            assert(open.spec_pos() == d1.emit.cur_pos + res1.start);
        }
        let ghost pst1 = p.state;
        let ghost sc0 = spec_scan(data, pst1, State::Init);
        let mut items: Vec<T> = Vec::new();
        let mut it = ParseDelimited::new("Array");
        let mut k: usize = 0;
        while k < N
            invariant
                k <= N,
                items@.len() == k,
                p.wf(),
                !old(p).state.eof,
                data == old(p).file.spec_data(),
                d1 == spec_drive(data, old(p).state, old(p).state.last_was_newline),
                res1 == spec_parse_token(data.skip(d1.emit.cur_pos as int)),
                d1.token == Result::<TokenView, TokenErrorView>::Ok(
                    TokenView::Brace { start: true, brace: Brace::Square },
                ),
                pst1 == d1.state,
                sc0 == spec_scan(data, pst1, State::Init),
                p.file.same_file(&old(p).file),
                p.state.cur_pos > old(p).state.cur_pos,
                p.state.cur_pos >= pst1.cur_pos,
                open.file.same_file(&old(p).file),
                open.spec_pos() == d1.emit.cur_pos + res1.start,
                it.while_parsing == "Array",
                (sc0 is End || sc0 is Refuse || sc0 is Fail) ==> (k == 0 && p.state == pst1
                    && it.state == State::Init),
            decreases N - k,
        {
            let ghost p0 = *p;
            let ghost it0 = it;
            match it.req_next_item::<T>(p) {
                Ok(v) => {
                    items.push(v.value);
                    proof {
                        lemma_scan_props(data, pst1, State::Init);
                        if sc0 is End || sc0 is Refuse || sc0 is Fail {
                            assert(p0.state == pst1 && it0.state == State::Init);
                            assert(false);
                        }
                    }
                },
                Err(e) => {
                    return Err(e);
                },
            }
            k = k + 1;
        }
        match it.req_end(p, Brace::Square) {
            Ok(_) => {},
            Err(e) => {
                return Err(e);
            },
        }
        let ghost pst_c = p.state;
        let close = match p.req_token("Array", Token::Brace { start: false, brace: Brace::Square })
            {
            Ok(s) => s,
            Err(e) => {
                return Err(e);
            },
        };
        proof {
            assert(p.file.spec_data() == data);
            if pst_c.eof {
                assert(false);
            }
            let d_c = spec_drive(data, pst_c, pst_c.last_was_newline);
            let res_c = spec_parse_token(data.skip(d_c.emit.cur_pos as int));
            crate::parser::lemma_drive_flags(data, pst_c, pst_c.last_was_newline);
            crate::token::rules::lemma_token_range_in_bounds(data.skip(d_c.emit.cur_pos as int));
            assert(close.spec_pos() == crate::scan::cap_usize(d_c.emit.cur_pos + res_c.start));
            assert(close.spec_pos() >= pst_c.cur_pos);
            assert(open.spec_pos() <= pst1.cur_pos);
        }
        let span = open.join(&close);
        proof {
            assert(span.spec_pos() == open.spec_pos());
        }
        Ok(Value { value: vec_to_array(items), span })
    }
}

impl<T: LogixType> LogixType for Vec<T> {
    fn descriptor() -> LogixTypeDescriptor {
        LogixTypeDescriptor {
            name: "list",
            doc: "a dynamically sized array",
            value: LogixValueDescriptor::Native,
        }
    }

    fn default_value() -> Option<Self> {
        None
    }

    fn logix_parse(p: &mut LogixParser) -> (r: Result<Value<Self>, ParseError>)
        ensures
            old(p).state.eof ==> r is Err,
            !old(p).state.eof ==> ({
                let d = spec_drive(
                    old(p).file.spec_data(),
                    old(p).state,
                    old(p).state.last_was_newline,
                );
                match d.token {
                    Ok(t) => (t != (TokenView::Brace { start: true, brace: Brace::Square }) ==> (
                    r matches Err(e) && e matches ParseError::UnexpectedToken {
                        got_token,
                        wanted,
                        while_parsing,
                        ..
                    } && got_token@ == spec_type_name(t) && wanted == Wanted::Token(
                        Token::Brace { start: true, brace: Brace::Square },
                    ) && while_parsing == "list")),
                    Err(ev) => (r matches Err(e) && e matches ParseError::TokenError {
                        error,
                        ..
                    } && error@ == ev),
                }
            }),
            !old(p).state.eof ==> ({
                let data = old(p).file.spec_data();
                let d1 = spec_drive(data, old(p).state, old(p).state.last_was_newline);
                let res1 = spec_parse_token(data.skip(d1.emit.cur_pos as int));
                &&& (r matches Ok(v) ==> (v.span.spec_pos() == d1.emit.cur_pos + res1.start
                    && v.span.file.same_file(&old(p).file)))
                &&& (d1.token == Result::<TokenView, TokenErrorView>::Ok(
                    TokenView::Brace { start: true, brace: Brace::Square },
                ) ==> (match spec_scan(data, d1.state, State::Init) {
                    ScanOutcome::End(pst2, _) => ({
                        let d2 = spec_drive(data, pst2, pst2.last_was_newline);
                        ((r is Ok) <==> d2.token == Result::<TokenView, TokenErrorView>::Ok(
                            TokenView::Brace { start: false, brace: Brace::Square },
                        )) && (r matches Ok(v) ==> v.value@.len() == 0)
                    }),
                    ScanOutcome::Refuse(_, _, _) => r is Err,
                    ScanOutcome::Fail(_) => r is Err,
                    ScanOutcome::Item(_, _) => true,
                }))
            }),
    {
        let ghost data = old(p).file.spec_data();
        let ghost d1 = spec_drive(data, old(p).state, old(p).state.last_was_newline);
        let ghost res1 = spec_parse_token(data.skip(d1.emit.cur_pos as int));
        let open = match p.req_token("list", Token::Brace { start: true, brace: Brace::Square }) {
            Ok(s) => s,
            Err(e) => {
                return Err(e);
            },
        };
        proof {
            crate::parser::lemma_drive_flags(data, old(p).state, old(p).state.last_was_newline);
            crate::token::rules::lemma_token_range_in_bounds(data.skip(d1.emit.cur_pos as int));
            lemma_scan_props(data, d1.state, State::Init);
            assert(open.spec_pos() == d1.emit.cur_pos + res1.start);
        }
        let ghost pst1 = p.state;
        let ghost sc0 = spec_scan(data, pst1, State::Init);
        let mut items: Vec<T> = Vec::new();
        let mut it = ParseDelimited::new("list");
        loop
            invariant
                p.wf(),
                p.file.same_file(&old(p).file),
                p.state.cur_pos > old(p).state.cur_pos,
                open.file.same_file(&old(p).file),
                !old(p).state.eof,
                data == old(p).file.spec_data(),
                d1 == spec_drive(data, old(p).state, old(p).state.last_was_newline),
                res1 == spec_parse_token(data.skip(d1.emit.cur_pos as int)),
                d1.token == Result::<TokenView, TokenErrorView>::Ok(
                    TokenView::Brace { start: true, brace: Brace::Square },
                ),
                pst1 == d1.state,
                sc0 == spec_scan(data, pst1, State::Init),
                p.state.cur_pos >= pst1.cur_pos,
                open.spec_pos() == d1.emit.cur_pos + res1.start,
                (sc0 is End || sc0 is Refuse || sc0 is Fail) ==> items@.len() == 0,
                (sc0 is End || sc0 is Refuse || sc0 is Fail) ==> ((p.state == pst1 && it.state
                    == State::Init) || (sc0 matches ScanOutcome::End(pst2, dst2) && p.state
                    == pst2 && it.state == dst2)),
            ensures
                p.wf(),
                p.file.same_file(&old(p).file),
                p.state.cur_pos > old(p).state.cur_pos,
                p.state.cur_pos >= pst1.cur_pos,
                !(sc0 is Refuse),
                !(sc0 is Fail),
                sc0 matches ScanOutcome::End(pst2, _) ==> (p.state == pst2 && items@.len()
                    == 0),
            decreases p.file.spec_data().len() - p.state.cur_pos,
        {
            let ghost pos0 = p.state.cur_pos;
            let ghost p0 = *p;
            let ghost it0 = it;
            match it.next_item::<T>(p) {
                Ok(Some(v)) => {
                    items.push(v.value);
                    proof {
                        assert(p.state.cur_pos > pos0);
                        lemma_scan_props(data, pst1, State::Init);
                        if sc0 is End || sc0 is Refuse || sc0 is Fail {
                            match sc0 {
                                ScanOutcome::End(pst2, dst2) => {
                                    assert(spec_scan(data, p0.state, it0.state) == sc0);
                                },
                                _ => {
                                    assert(p0.state == pst1 && it0.state == State::Init);
                                },
                            }
                            assert(false);
                        }
                    }
                },
                Ok(None) => {
                    proof {
                        lemma_scan_props(data, pst1, State::Init);
                        if sc0 is Refuse || sc0 is Fail {
                            assert(p0.state == pst1 && it0.state == State::Init);
                            assert(false);
                        }
                        match sc0 {
                            ScanOutcome::End(pst2, dst2) => {
                                assert(spec_scan(data, p0.state, it0.state) == sc0);
                                assert(p.state == pst2);
                            },
                            _ => {},
                        }
                    }
                    break;
                },
                Err(e) => {
                    proof {
                        lemma_scan_props(data, pst1, State::Init);
                        if sc0 is End {
                            match sc0 {
                                ScanOutcome::End(pst2, dst2) => {
                                    assert(spec_scan(data, p0.state, it0.state) == sc0);
                                },
                                _ => {},
                            }
                            assert(false);
                        }
                    }
                    return Err(e);
                },
            }
        }
        let ghost pst_c = p.state;
        let close = match p.req_token("list", Token::Brace { start: false, brace: Brace::Square })
            {
            Ok(s) => s,
            Err(e) => {
                return Err(e);
            },
        };
        proof {
            assert(p.file.spec_data() == data);
            if pst_c.eof {
                assert(false);
            }
            let d_c = spec_drive(data, pst_c, pst_c.last_was_newline);
            let res_c = spec_parse_token(data.skip(d_c.emit.cur_pos as int));
            crate::parser::lemma_drive_flags(data, pst_c, pst_c.last_was_newline);
            crate::token::rules::lemma_token_range_in_bounds(data.skip(d_c.emit.cur_pos as int));
            assert(close.spec_pos() == crate::scan::cap_usize(
                d_c.emit.cur_pos + res_c.start,
            ));
            assert(close.spec_pos() >= pst_c.cur_pos);
            assert(open.spec_pos() <= pst1.cur_pos);
        }
        let span = open.join(&close);
        proof {
            assert(span.spec_pos() == open.spec_pos());
        }
        Ok(Value { value: items, span })
    }
}

} // verus!
