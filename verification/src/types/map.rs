//! A mapping from short-string keys to config values, in insertion order.
//!
//! Entries live in a vector whose invariant says the keys are distinct,
//! which keeps both the insertion order and the duplicate-entry rule
//! plainly visible.

use crate::error::{ParseError, TokenErrorView, Wanted, Warn};
use crate::parser::{span_matches, spec_drive, token_at, LogixParser};
use crate::token::rules::spec_parse_token;
use crate::token::{spec_type_name, Brace, Token, TokenView};
use crate::type_trait::{LogixType, LogixTypeDescriptor, LogixValueDescriptor, Value};
use crate::types::string::ShortStr;
use vstd::prelude::*;

verus! {

/// Key-value entries in insertion order with pairwise-distinct keys.
#[derive(Debug, PartialEq, Eq)]
pub struct LogixMap<V> {
    pub entries: Vec<(ShortStr, V)>,
}

impl<V> LogixMap<V> {
    /// The keys, in order.
    pub open spec fn spec_keys(&self) -> Seq<Seq<char>> {
        self.entries@.map(|i: int, e: (ShortStr, V)| e.0@)
    }

    /// No two entries share a key.
    pub open spec fn wf(&self) -> bool {
        forall|i: int, j: int|
            0 <= i < j < self.spec_keys().len() ==> self.spec_keys()[i] != self.spec_keys()[j]
    }

    /// An empty map.
    pub fn new() -> (r: LogixMap<V>)
        ensures
            r.entries@.len() == 0,
            r.wf(),
    {
        LogixMap { entries: Vec::new() }
    }

    /// Number of entries.
    pub fn len(&self) -> (r: usize)
        ensures
            r == self.entries@.len(),
    {
        self.entries.len()
    }

    /// The value stored under `key`, if any.
    pub fn get(&self, key: &str) -> (r: Option<&V>)
        ensures
            (r is Some) == (exists|i: int|
                0 <= i < self.spec_keys().len() && self.spec_keys()[i] == key@),
    {
        let n = self.entries.len();
        let mut i: usize = 0;
        while i < n
            invariant
                i <= n,
                n == self.entries@.len(),
                forall|k: int| 0 <= k < i ==> self.spec_keys()[k] != key@,
            decreases n - i,
        {
            if crate::text::str_eq(self.entries[i].0.as_str(), key) {
                proof {
                    assert(self.spec_keys()[i as int] == key@);
                }
                return Some(&self.entries[i].1);
            }
            proof {
                assert(self.spec_keys()[i as int] == self.entries@[i as int].0@);
            }
            i = i + 1;
        }
        None
    }

    /// Append an entry whose key is not present yet; a duplicate key is
    /// reported instead of stored.
    pub fn insert_new(&mut self, key: ShortStr, value: V) -> (r: Result<(), ()>)
        requires
            old(self).wf(),
        ensures
            final(self).wf(),
            r matches Ok(_) ==> final(self).spec_keys() == old(self).spec_keys().push(key@) && (
            forall|i: int|
                0 <= i < old(self).spec_keys().len() ==> old(self).spec_keys()[i] != key@),
            r is Err ==> *final(self) == *old(self) && (exists|i: int|
                0 <= i < old(self).spec_keys().len() && old(self).spec_keys()[i] == key@),
    {
        let n = self.entries.len();
        let mut i: usize = 0;
        while i < n
            invariant
                i <= n,
                n == self.entries@.len(),
                self.wf(),
                *self == *old(self),
                forall|k: int| 0 <= k < i ==> self.spec_keys()[k] != key@,
            decreases n - i,
        {
            if crate::text::str_eq(self.entries[i].0.as_str(), key.as_str()) {
                proof {
                    assert(self.spec_keys()[i as int] == key@);
                }
                return Err(());
            }
            proof {
                assert(self.spec_keys()[i as int] == self.entries@[i as int].0@);
            }
            i = i + 1;
        }
        let ghost before = self.entries@;
        self.entries.push((key, value));
        proof {
            assert(self.spec_keys() =~= before.map(|i: int, e: (ShortStr, V)| e.0@).push(
                self.entries@.last().0@,
            ));
        }
        Ok(())
    }
}

impl<V: LogixType> LogixType for LogixMap<V> {
    fn descriptor() -> LogixTypeDescriptor {
        LogixTypeDescriptor {
            name: "string",
            doc: "a valid utf-8 string",
            value: LogixValueDescriptor::Native,
        }
    }

    fn default_value() -> Option<Self> {
        Some(LogixMap::new())
    }

    #[verifier::rlimit(100)]
    #[verifier::spinoff_prover]
    fn logix_parse(p: &mut LogixParser) -> (r: Result<Value<Self>, ParseError>)
        ensures
            old(p).state.eof ==> r is Err,
            r matches Err(e) ==> crate::parser::dup_warning_witnessed(
                old(p).file.spec_data(),
                e,
            ),
            !old(p).state.eof ==> ({
                let d = spec_drive(
                    old(p).file.spec_data(),
                    old(p).state,
                    old(p).state.last_was_newline,
                );
                match d.token {
                    Ok(t) => (t != (TokenView::Brace { start: true, brace: Brace::Curly }) ==> (r
                        matches Err(e) && e matches ParseError::UnexpectedToken {
                        got_token,
                        wanted,
                        while_parsing,
                        ..
                    } && got_token@ == spec_type_name(t) && wanted == Wanted::Token(
                        Token::Brace { start: true, brace: Brace::Curly },
                    ) && while_parsing == "map")),
                    Err(ev) => (r matches Err(e) && e matches ParseError::TokenError {
                        error,
                        ..
                    } && error@ == ev),
                }
            }),
            r matches Ok(v) ==> v.value.wf(),
            !old(p).state.eof ==> ({
                let data = old(p).file.spec_data();
                let d1 = spec_drive(data, old(p).state, old(p).state.last_was_newline);
                let res1 = spec_parse_token(data.skip(d1.emit.cur_pos as int));
                &&& (r matches Ok(v) ==> span_matches(
                    v.span,
                    old(p).file,
                    d1.emit,
                    res1.start,
                    res1.end,
                ))
                &&& (d1.token == Result::<TokenView, TokenErrorView>::Ok(
                    TokenView::Brace { start: true, brace: Brace::Curly },
                ) ==> ({
                    let d2 = spec_drive(data, d1.state, d1.state.last_was_newline);
                    &&& (d2.token matches Ok(t2) ==> (t2 != TokenView::Newline(false) ==> (r
                        matches Err(e) && e matches ParseError::UnexpectedToken {
                        got_token,
                        wanted,
                        while_parsing,
                        ..
                    } && got_token@ == spec_type_name(t2) && wanted == Wanted::Token(
                        Token::Newline(false),
                    ) && while_parsing == "map")))
                    &&& (d2.token is Err ==> r is Err)
                    &&& (d2.token == Result::<TokenView, TokenErrorView>::Ok(
                        TokenView::Newline(false),
                    ) ==> ({
                        let d3 = spec_drive(data, d2.state, d2.state.last_was_newline);
                        d3.token == Result::<TokenView, TokenErrorView>::Ok(
                            TokenView::Brace { start: false, brace: Brace::Curly },
                        ) ==> (r matches Ok(v) && v.value.entries@.len() == 0)
                    }))
                }))
            }),
    {
        let ghost data = old(p).file.spec_data();
        let ghost d1 = spec_drive(data, old(p).state, old(p).state.last_was_newline);
        let ghost res1 = spec_parse_token(data.skip(d1.emit.cur_pos as int));
        let start = match p.req_token("map", Token::Brace { start: true, brace: Brace::Curly }) {
            Ok(s) => s,
            Err(e) => {
                return Err(e);
            },
        };
        proof {
            crate::parser::lemma_drive_flags(data, old(p).state, old(p).state.last_was_newline);
        }
        match p.req_token("map", Token::Newline(false)) {
            Ok(_) => {},
            Err(e) => {
                return Err(e);
            },
        }
        proof {
            crate::parser::lemma_drive_flags(data, d1.state, d1.state.last_was_newline);
        }
        let ghost pst2 = p.state;
        let ghost d2 = spec_drive(data, d1.state, d1.state.last_was_newline);
        let ghost d3 = spec_drive(data, pst2, pst2.last_was_newline);
        let mut map: LogixMap<V> = LogixMap::new();
        loop
            invariant_except_break
                d3.token == Result::<TokenView, TokenErrorView>::Ok(
                    TokenView::Brace { start: false, brace: Brace::Curly },
                ) ==> (p.state == pst2 && map.entries@.len() == 0),
            invariant
                0 <= pst2.cur_pos <= data.len(),
                data.len() < usize::MAX - 4,
                !pst2.eof,
                0 <= d1.state.cur_pos <= data.len(),
                d2 == spec_drive(data, d1.state, d1.state.last_was_newline),
                d2.token == Result::<TokenView, TokenErrorView>::Ok(TokenView::Newline(false)),
                d2.state == pst2,
                p.wf(),
                map.wf(),
                p.file.same_file(&old(p).file),
                p.state.cur_pos > old(p).state.cur_pos,
                start.file.same_file(&old(p).file),
                !old(p).state.eof,
                data == old(p).file.spec_data(),
                d1 == spec_drive(data, old(p).state, old(p).state.last_was_newline),
                res1 == spec_parse_token(data.skip(d1.emit.cur_pos as int)),
                d1.token == Result::<TokenView, TokenErrorView>::Ok(
                    TokenView::Brace { start: true, brace: Brace::Curly },
                ),
                span_matches(start, old(p).file, d1.emit, res1.start, res1.end),
                d3 == spec_drive(data, pst2, pst2.last_was_newline),
            ensures
                p.wf(),
                map.wf(),
                p.file.same_file(&old(p).file),
                start.file.same_file(&old(p).file),
                span_matches(start, old(p).file, d1.emit, res1.start, res1.end),
                d3.token == Result::<TokenView, TokenErrorView>::Ok(
                    TokenView::Brace { start: false, brace: Brace::Curly },
                ) ==> map.entries@.len() == 0,
            decreases p.file.spec_data().len() - p.state.cur_pos,
        {
            let ghost pos0 = p.state.cur_pos;
            let ghost ip = *p;
            match p.read_key_value::<V>("map", Brace::Curly) {
                Ok(Some((key, value))) => {
                    let key_span = key.span;
                    let key_text = key.value;
                    let dup_key = key_text.clone();
                    match map.insert_new(key_text, value.value) {
                        Ok(_) => {},
                        Err(_) => {
                            // The second entry for a key is refused, with
                            // the second key's span.
                            let err_val = ParseError::Warning(
                                Warn::DuplicateMapEntry { span: key_span, key: dup_key },
                            );
                            proof {
                                assert(!ip.state.eof);
                                let data = ip.file.spec_data();
                                assert(data == old(p).file.spec_data());
                                let dd = spec_drive(data, ip.state, ip.state.last_was_newline);
                                let q = dd.emit.cur_pos as int;
                                crate::parser::lemma_drive_flags(
                                    data,
                                    ip.state,
                                    ip.state.last_was_newline,
                                );
                                crate::token::rules::lemma_token_range_in_bounds(data.skip(q));
                                match &err_val {
                                    ParseError::Warning(
                                        Warn::DuplicateMapEntry { span: sp2, key: k2 },
                                    ) => {
                                        assert(token_at(
                                            old(p).file.spec_data(),
                                            q,
                                            TokenView::Ident(k2@),
                                            *sp2,
                                        ));
                                        assert(crate::parser::dup_warning_witnessed(
                                            old(p).file.spec_data(),
                                            err_val,
                                        ));
                                    },
                                    _ => {},
                                }
                            }
                            proof {
                                if d3.token == Result::<TokenView, TokenErrorView>::Ok(
                                    TokenView::Brace { start: false, brace: Brace::Curly },
                                ) {
                                    assert(ip.state == pst2);
                                    assert(false);
                                }
                            }
                            return Err(err_val);
                        },
                    }
                    proof {
                        assert(p.state.cur_pos > pos0);
                    }
                },
                Ok(None) => {
                    break;
                },
                Err(e) => {
                    proof {
                        if d3.token == Result::<TokenView, TokenErrorView>::Ok(
                            TokenView::Brace { start: false, brace: Brace::Curly },
                        ) {
                            assert(ip.state == pst2);
                            assert(false);
                        }
                    }
                    return Err(e);
                },
            }
        }
        Ok(Value { value: map, span: start })
    }
}

} // verus!
