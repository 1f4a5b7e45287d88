//! The declarative schema engine: the helpers a `LogixType` implementation
//! builds on.  A struct implementation reads its header and then keys
//! against its member table; a tuple implementation reads positional
//! fields; an enum implementation dispatches on a variant name.

use crate::error::{ParseError, TokenErrorView, Wanted};
use crate::loader::CachedFile;
use crate::parser::{span_matches, spec_drive, LogixParser, ParseState};
use crate::span::SourceSpan;
use crate::token::rules::spec_parse_token;
use crate::token::{spec_type_name, Brace, Delim, Token, TokenView};
use vstd::prelude::*;
use vstd::string::StringExecFns;

verus! {

/// The first member of the table whose name is `k`, if any.
pub open spec fn member_index(members: Seq<&'static str>, k: Seq<char>) -> Option<int>
    decreases members.len(),
{
    if members.len() == 0 {
        None
    } else if members[0]@ == k {
        Some(0int)
    } else {
        match member_index(members.drop_first(), k) {
            Some(i) => Some(i + 1),
            None => None,
        }
    }
}

/// A found member index is in range and names `k`.
pub proof fn lemma_member_index_bounds(members: Seq<&'static str>, k: Seq<char>)
    ensures
        member_index(members, k) matches Some(i) ==> 0 <= i < members.len() && members[i]@ == k,
    decreases members.len(),
{
    if members.len() > 0 && members[0]@ != k {
        lemma_member_index_bounds(members.drop_first(), k);
        assert(forall|j: int|
            0 <= j < members.drop_first().len() ==> members.drop_first()[j] == members[j + 1]);
    }
}

proof fn lemma_member_index_step(members: Seq<&'static str>, k: Seq<char>, i: int)
    requires
        0 <= i < members.len(),
        members[i]@ != k,
    ensures
        shifted_index(members, k, i) == shifted_index(members, k, i + 1),
    decreases members.len() - i,
{
    assert(members.skip(i)[0] == members[i]);
    assert(members.skip(i).drop_first() =~= members.skip(i + 1));
}

/// `member_index` of the table's tail from `i`, shifted back to absolute
/// indices.
pub open spec fn shifted_index(members: Seq<&'static str>, k: Seq<char>, i: int) -> Option<
    int,
> {
    match member_index(members.skip(i), k) {
        Some(j) => Some(i + j),
        None => None,
    }
}

/// What the key reader found: a member (by index in the table, with the
/// key's span) or the closing brace (with its span).
#[derive(Debug)]
pub enum StructKey {
    Member(usize, SourceSpan),
    End(SourceSpan),
}

/// After any leading identifier, a struct header owes an opening curly
/// brace and then the newline that ends the header line: this fixes the
/// outcome of those two driver steps.
pub open spec fn spec_struct_header_rest(
    data: Seq<u8>,
    file: CachedFile,
    st: ParseState,
    name: &'static str,
    r: Result<SourceSpan, ParseError>,
) -> bool {
    &&& (st.eof ==> r is Err)
    &&& (!st.eof ==> ({
        let da = spec_drive(data, st, st.last_was_newline);
        let resa = spec_parse_token(data.skip(da.emit.cur_pos as int));
        &&& (da.token is Err ==> r is Err)
        &&& (da.token matches Ok(ta) ==> (ta != (TokenView::Brace {
            start: true,
            brace: Brace::Curly,
        }) ==> r is Err))
        &&& (da.token == Result::<TokenView, TokenErrorView>::Ok(
            TokenView::Brace { start: true, brace: Brace::Curly },
        ) ==> ({
            let db = spec_drive(data, da.state, da.state.last_was_newline);
            let resb = spec_parse_token(data.skip(db.emit.cur_pos as int));
            &&& ((r is Ok) <==> db.token == Result::<TokenView, TokenErrorView>::Ok(
                TokenView::Newline(false),
            ))
            &&& (r matches Ok(s) ==> span_matches(s, file, da.emit, resa.start, resa.end))
            &&& (db.token matches Ok(tb) ==> (tb != TokenView::Newline(false) ==> (r
                matches Err(e) && e matches ParseError::UnexpectedToken {
                span,
                got_token,
                wanted,
                while_parsing,
            } && got_token@ == spec_type_name(tb) && wanted == Wanted::Token(
                Token::Newline(false),
            ) && while_parsing == name && span_matches(
                span,
                file,
                db.emit,
                resb.start,
                resb.end,
            ))))
            &&& (db.token is Err ==> r is Err)
        }))
    }))
}

/// A tuple header owes an opening parenthesis after any leading
/// identifier: this fixes the outcome of that driver step.
pub open spec fn spec_tuple_header_rest(
    data: Seq<u8>,
    file: CachedFile,
    st: ParseState,
    name: &'static str,
    r: Result<SourceSpan, ParseError>,
) -> bool {
    &&& (st.eof ==> r is Err)
    &&& (!st.eof ==> ({
        let da = spec_drive(data, st, st.last_was_newline);
        let resa = spec_parse_token(data.skip(da.emit.cur_pos as int));
        &&& ((r is Ok) <==> da.token == Result::<TokenView, TokenErrorView>::Ok(
            TokenView::Brace { start: true, brace: Brace::Paren },
        ))
        &&& (r matches Ok(s) ==> span_matches(s, file, da.emit, resa.start, resa.end))
        &&& (da.token matches Ok(ta) ==> (ta != (TokenView::Brace {
            start: true,
            brace: Brace::Paren,
        }) ==> (r matches Err(e) && e matches ParseError::UnexpectedToken {
            got_token,
            wanted,
            while_parsing,
            ..
        } && got_token@ == spec_type_name(ta) && wanted == Wanted::Token(
            Token::Brace { start: true, brace: Brace::Paren },
        ) && while_parsing == name)))
        &&& (da.token is Err ==> r is Err)
    }))
}

/// Read a struct's opening: its identifier (unless the caller already
/// consumed it), the opening curly brace, and the newline that ends the
/// header line.  Yields the brace's span.
pub fn req_struct_header(p: &mut LogixParser, name: &'static str, with_ident: bool) -> (r: Result<
    SourceSpan,
    ParseError,
>)
    requires
        old(p).wf(),
    ensures
        final(p).wf(),
        final(p).file.same_file(&old(p).file),
        final(p).state.cur_pos >= old(p).state.cur_pos,
        r matches Err(e) ==> !(e matches ParseError::FsError(_)) && !(e
            matches ParseError::Warning(_)),
        r matches Ok(s) ==> s.file.same_file(&old(p).file),
        r matches Ok(s) ==> final(p).state.cur_pos > old(p).state.cur_pos,
        old(p).state.eof ==> r is Err,
        !old(p).state.eof && !with_ident ==> spec_struct_header_rest(
            old(p).file.spec_data(),
            old(p).file,
            old(p).state,
            name,
            r,
        ),
        !old(p).state.eof && with_ident ==> ({
            let data = old(p).file.spec_data();
            let d1 = spec_drive(data, old(p).state, old(p).state.last_was_newline);
            &&& (d1.token is Err ==> r is Err)
            &&& (d1.token matches Ok(t1) ==> (t1 != TokenView::Ident(name@) ==> r is Err))
            &&& (d1.token == Result::<TokenView, TokenErrorView>::Ok(TokenView::Ident(name@))
                ==> spec_struct_header_rest(data, old(p).file, d1.state, name, r))
        }),
{
    let ghost data = old(p).file.spec_data();
    let ghost st0 = old(p).state;
    if with_ident {
        match p.req_token(name, Token::Ident(String::from_str(name))) {
            Ok(_) => {},
            Err(e) => {
                return Err(e);
            },
        }
    }
    proof {
        if !st0.eof {
            crate::parser::lemma_drive_flags(data, st0, st0.last_was_newline);
        }
    }
    let ghost sta = p.state;
    let open = match p.req_token(name, Token::Brace { start: true, brace: Brace::Curly }) {
        Ok(s) => s,
        Err(e) => {
            return Err(e);
        },
    };
    proof {
        if !sta.eof {
            crate::parser::lemma_drive_flags(data, sta, sta.last_was_newline);
        }
    }
    match p.req_token(name, Token::Newline(false)) {
        Ok(_) => Ok(open),
        Err(e) => Err(e),
    }
}

/// Read the next member key of a struct, or its closing brace.  A key
/// that matches `members[i]` yields `Member(i, span)` with its colon
/// consumed; a key already seen is refused as a duplicate whose span
/// covers the second key; an unknown key is refused listing the closing
/// brace and the members not yet seen.
pub fn next_struct_key(
    p: &mut LogixParser,
    name: &'static str,
    members: &Vec<&'static str>,
    seen: &Vec<bool>,
) -> (r: Result<StructKey, ParseError>)
    requires
        old(p).wf(),
        members@.len() == seen@.len(),
    ensures
        final(p).wf(),
        final(p).file.same_file(&old(p).file),
        final(p).state.cur_pos >= old(p).state.cur_pos,
        r matches Err(e) ==> !(e matches ParseError::FsError(_)) && !(e
            matches ParseError::Warning(_)),
        r matches Ok(k) ==> (k matches StructKey::Member(i, span) ==> i < members@.len()
            && !seen@[i as int] && span.file.same_file(&old(p).file)),
        r matches Ok(k) ==> (k is Member ==> final(p).state.cur_pos > old(p).state.cur_pos),
        r matches Err(e) ==> (e matches ParseError::DuplicateStructMember {
            type_label,
            member,
            ..
        } ==> type_label == name && exists|i: int|
            0 <= i < members@.len() && members@[i] == member && seen@[i]),
        old(p).state.eof ==> r is Err,
        !old(p).state.eof ==> ({
            let d1 = spec_drive(
                old(p).file.spec_data(),
                old(p).state,
                old(p).state.last_was_newline,
            );
            let res1 = spec_parse_token(old(p).file.spec_data().skip(d1.emit.cur_pos as int));
            match d1.token {
                Ok(t) => (match t {
                    TokenView::Ident(k) => (match member_index(members@, k) {
                        Some(i) => (seen@[i] ==> (r matches Err(e) && e
                            matches ParseError::DuplicateStructMember {
                            span,
                            type_label,
                            member,
                        } && type_label == name && member == members@[i] && span_matches(
                            span,
                            old(p).file,
                            d1.emit,
                            res1.start,
                            res1.end,
                        ))) && (!seen@[i] ==> (r matches Ok(sk) ==> sk matches StructKey::Member(
                            j,
                            sp,
                        ) && j == i && span_matches(
                            sp,
                            old(p).file,
                            d1.emit,
                            res1.start,
                            res1.end,
                        ))),
                        None => (r matches Err(e) && e matches ParseError::UnexpectedToken {
                            got_token,
                            wanted,
                            ..
                        } && got_token@ == "identifier"@ && wanted matches Wanted::Tokens(_)),
                    }),
                    TokenView::Brace { start: false, brace: Brace::Curly } => (r
                        matches Ok(sk) && sk matches StructKey::End(sp) && span_matches(
                        sp,
                        old(p).file,
                        d1.emit,
                        res1.start,
                        res1.end,
                    )),
                    _ => r is Err,
                }),
                Err(_) => r is Err,
            }
        }),
    {
    match p.next_token() {
        Ok((span, Token::Ident(key))) => {
            let n = members.len();
            let mut i: usize = 0;
            proof {
                assert(members@.skip(0) =~= members@);
            }
            while i < n
                invariant
                    i <= n,
                    n == members@.len() == seen@.len(),
                    p.wf(),
                    p.file.same_file(&old(p).file),
                    p.state.cur_pos > old(p).state.cur_pos,
                    span.file.same_file(&old(p).file),
                    member_index(members@, key@) == shifted_index(members@, key@, i as int),
                    !old(p).state.eof,
                    forall|j: int| 0 <= j < i ==> members@[j]@ != key@,
                    ({
                        let d1 = spec_drive(
                            old(p).file.spec_data(),
                            old(p).state,
                            old(p).state.last_was_newline,
                        );
                        let res1 = spec_parse_token(
                            old(p).file.spec_data().skip(d1.emit.cur_pos as int),
                        );
                        d1.token == Result::<TokenView, crate::error::TokenErrorView>::Ok(
                            TokenView::Ident(key@),
                        ) && span_matches(span, old(p).file, d1.emit, res1.start, res1.end)
                    }),
                decreases n - i,
            {
                if crate::text::str_eq(key.as_str(), members[i]) {
                    proof {
                        assert(members@.skip(i as int)[0] == members@[i as int]);
                        assert(member_index(members@, key@) == Some(i as int));
                        lemma_member_index_bounds(members@, key@);
                    }
                    if seen[i] {
                        proof {
                            assert(0 <= i < members@.len() && members@[i as int] == members@[
                                i as int
                            ] && seen@[i as int]);
                            assert(exists|j: int|
                                0 <= j < members@.len() && members@[j] == members@[i as int]
                                    && seen@[j]);
                        }
                        return Err(
                            ParseError::DuplicateStructMember {
                                span,
                                type_label: name,
                                member: members[i],
                            },
                        );
                    }
                    match p.req_token(name, Token::Delim(Delim::Colon)) {
                        Ok(_) => {},
                        Err(e) => {
                            return Err(e);
                        },
                    }
                    return Ok(StructKey::Member(i, span));
                }
                proof {
                    lemma_member_index_step(members@, key@, i as int);
                }
                i = i + 1;
            }
            proof {
                assert(members@.skip(n as int) =~= Seq::<&'static str>::empty());
                assert(member_index(members@, key@) is None);
            }
            Err(unknown_member_error(span, name, members, seen, "identifier"))
        },
        Ok((span, Token::Brace { start: false, brace: Brace::Curly })) => Ok(
            StructKey::End(span),
        ),
        Ok((span, token)) => Err(
            unknown_member_error(span, name, members, seen, token.token_type_name()),
        ),
        Err(e) => Err(e),
    }
}

/// The refusal for a token where a member key or the closing brace was
/// wanted: the brace and the members not yet seen are listed.
fn unknown_member_error(
    span: SourceSpan,
    name: &'static str,
    members: &Vec<&'static str>,
    seen: &Vec<bool>,
    got_token: &'static str,
) -> (r: ParseError)
    requires
        members@.len() == seen@.len(),
    ensures
        r matches ParseError::UnexpectedToken { while_parsing: wp, got_token: gt, wanted: w, .. }
            && wp == name && gt == got_token && w matches Wanted::Tokens(_),
{
    let mut tokens: Vec<Token> = Vec::new();
    tokens.push(Token::Brace { start: false, brace: Brace::Curly });
    let n = members.len();
    let mut i: usize = 0;
    while i < n
        invariant
            i <= n,
            n == members@.len() == seen@.len(),
        decreases n - i,
    {
        if !seen[i] {
            tokens.push(Token::Ident(String::from_str(members[i])));
        }
        i = i + 1;
    }
    ParseError::UnexpectedToken {
        span,
        while_parsing: name,
        wanted: Wanted::Tokens(tokens),
        got_token,
    }
}

/// The refusal for a member that never arrived: its span is the closing
/// brace's.
pub fn missing_member_error(
    end_span: &SourceSpan,
    name: &'static str,
    member: &'static str,
) -> (r: ParseError)
    ensures
        r matches ParseError::MissingStructMember { span, type_label: t, member: m }
            && span.file.same_file(&end_span.file) && span.pos == end_span.pos && span.range
            == end_span.range && t == name && m == member,
{
    ParseError::MissingStructMember { span: end_span.clone(), type_label: name, member }
}

/// Read a tuple struct's opening: its identifier (unless already
/// consumed) and the opening parenthesis, whose span comes back.
pub fn req_tuple_header(p: &mut LogixParser, name: &'static str, with_ident: bool) -> (r: Result<
    SourceSpan,
    ParseError,
>)
    requires
        old(p).wf(),
    ensures
        final(p).wf(),
        final(p).file.same_file(&old(p).file),
        final(p).state.cur_pos >= old(p).state.cur_pos,
        r matches Err(e) ==> !(e matches ParseError::FsError(_)) && !(e
            matches ParseError::Warning(_)),
        r matches Ok(s) ==> s.file.same_file(&old(p).file),
        old(p).state.eof ==> r is Err,
        !old(p).state.eof && !with_ident ==> spec_tuple_header_rest(
            old(p).file.spec_data(),
            old(p).file,
            old(p).state,
            name,
            r,
        ),
        !old(p).state.eof && with_ident ==> ({
            let data = old(p).file.spec_data();
            let d1 = spec_drive(data, old(p).state, old(p).state.last_was_newline);
            &&& (d1.token is Err ==> r is Err)
            &&& (d1.token matches Ok(t1) ==> (t1 != TokenView::Ident(name@) ==> r is Err))
            &&& (d1.token == Result::<TokenView, TokenErrorView>::Ok(TokenView::Ident(name@))
                ==> spec_tuple_header_rest(data, old(p).file, d1.state, name, r))
        }),
{
    let ghost data = old(p).file.spec_data();
    let ghost st0 = old(p).state;
    if with_ident {
        match p.req_token(name, Token::Ident(String::from_str(name))) {
            Ok(_) => {},
            Err(e) => {
                return Err(e);
            },
        }
    }
    proof {
        if !st0.eof {
            crate::parser::lemma_drive_flags(data, st0, st0.last_was_newline);
        }
    }
    p.req_token(name, Token::Brace { start: true, brace: Brace::Paren })
}

/// Require the comma between two tuple fields.
pub fn req_tuple_sep(p: &mut LogixParser, name: &'static str) -> (r: Result<(), ParseError>)
    requires
        old(p).wf(),
    ensures
        final(p).wf(),
        final(p).file.same_file(&old(p).file),
        final(p).state.cur_pos >= old(p).state.cur_pos,
        r matches Err(e) ==> !(e matches ParseError::FsError(_)) && !(e
            matches ParseError::Warning(_)),
        !old(p).state.eof ==> ((r is Ok) <==> spec_drive(
            old(p).file.spec_data(),
            old(p).state,
            old(p).state.last_was_newline,
        ).token == Result::<TokenView, crate::error::TokenErrorView>::Ok(
            TokenView::Delim(Delim::Comma),
        )),
        old(p).state.eof ==> r is Err,
{
    match p.req_token(name, Token::Delim(Delim::Comma)) {
        Ok(_) => Ok(()),
        Err(e) => Err(e),
    }
}

/// Require the closing parenthesis after the last tuple field; its span
/// comes back.
pub fn req_tuple_end(p: &mut LogixParser, name: &'static str) -> (r: Result<
    SourceSpan,
    ParseError,
>)
    requires
        old(p).wf(),
    ensures
        final(p).wf(),
        final(p).file.same_file(&old(p).file),
        final(p).state.cur_pos >= old(p).state.cur_pos,
        r matches Err(e) ==> !(e matches ParseError::FsError(_)) && !(e
            matches ParseError::Warning(_)),
        r matches Ok(s) ==> s.file.same_file(&old(p).file),
        !old(p).state.eof ==> ((r is Ok) <==> spec_drive(
            old(p).file.spec_data(),
            old(p).state,
            old(p).state.last_was_newline,
        ).token == Result::<TokenView, crate::error::TokenErrorView>::Ok(
            TokenView::Brace { start: false, brace: Brace::Paren },
        )),
        old(p).state.eof ==> r is Err,
{
    p.req_token(name, Token::Brace { start: false, brace: Brace::Paren })
}

/// Read an enum value's leading identifier and give the index of the
/// variant it names; any other token is refused listing every variant.
pub fn req_enum_variant(
    p: &mut LogixParser,
    name: &'static str,
    variants: &Vec<&'static str>,
) -> (r: Result<(usize, SourceSpan), ParseError>)
    requires
        old(p).wf(),
    ensures
        final(p).wf(),
        final(p).file.same_file(&old(p).file),
        final(p).state.cur_pos >= old(p).state.cur_pos,
        r matches Err(e) ==> !(e matches ParseError::FsError(_)) && !(e
            matches ParseError::Warning(_)),
        r matches Ok(v) ==> v.0 < variants@.len() && v.1.file.same_file(&old(p).file),
        r matches Ok(v) ==> final(p).state.cur_pos > old(p).state.cur_pos,
        old(p).state.eof ==> r is Err,
        !old(p).state.eof ==> ({
            let d1 = spec_drive(
                old(p).file.spec_data(),
                old(p).state,
                old(p).state.last_was_newline,
            );
            let res1 = spec_parse_token(old(p).file.spec_data().skip(d1.emit.cur_pos as int));
            match d1.token {
                Ok(t) => (match t {
                    TokenView::Ident(k) => (match member_index(variants@, k) {
                        Some(i) => (r matches Ok(v) && v.0 == i && span_matches(
                            v.1,
                            old(p).file,
                            d1.emit,
                            res1.start,
                            res1.end,
                        )),
                        None => (r matches Err(e) && e matches ParseError::UnexpectedToken {
                            got_token,
                            wanted,
                            ..
                        } && got_token@ == "identifier"@ && wanted matches Wanted::Tokens(_)),
                    }),
                    _ => r is Err,
                }),
                Err(_) => r is Err,
            }
        }),
{
    match p.next_token() {
        Ok((span, Token::Ident(key))) => {
            let n = variants.len();
            let mut i: usize = 0;
            proof {
                assert(variants@.skip(0) =~= variants@);
            }
            while i < n
                invariant
                    i <= n,
                    n == variants@.len(),
                    p.wf(),
                    p.file.same_file(&old(p).file),
                    p.state.cur_pos > old(p).state.cur_pos,
                    span.file.same_file(&old(p).file),
                    member_index(variants@, key@) == shifted_index(variants@, key@, i as int),
                    !old(p).state.eof,
                    ({
                        let d1 = spec_drive(
                            old(p).file.spec_data(),
                            old(p).state,
                            old(p).state.last_was_newline,
                        );
                        let res1 = spec_parse_token(
                            old(p).file.spec_data().skip(d1.emit.cur_pos as int),
                        );
                        d1.token == Result::<TokenView, crate::error::TokenErrorView>::Ok(
                            TokenView::Ident(key@),
                        ) && span_matches(span, old(p).file, d1.emit, res1.start, res1.end)
                    }),
                decreases n - i,
            {
                if crate::text::str_eq(key.as_str(), variants[i]) {
                    proof {
                        assert(variants@.skip(i as int)[0] == variants@[i as int]);
                        assert(member_index(variants@, key@) == Some(i as int));
                        lemma_member_index_bounds(variants@, key@);
                    }
                    return Ok((i, span));
                }
                proof {
                    lemma_member_index_step(variants@, key@, i as int);
                }
                i = i + 1;
            }
            proof {
                assert(variants@.skip(n as int) =~= Seq::<&'static str>::empty());
                assert(member_index(variants@, key@) is None);
            }
            let mut tokens: Vec<Token> = Vec::new();
            let mut k: usize = 0;
            while k < n
                invariant
                    k <= n,
                    n == variants@.len(),
                    p.wf(),
                    p.file.same_file(&old(p).file),
                    p.state.cur_pos > old(p).state.cur_pos,
                decreases n - k,
            {
                tokens.push(Token::Ident(String::from_str(variants[k])));
                k = k + 1;
            }
            Err(
                ParseError::UnexpectedToken {
                    span,
                    while_parsing: name,
                    wanted: Wanted::Tokens(tokens),
                    got_token: "identifier",
                },
            )
        },
        Ok((span, token)) => Err(
            ParseError::UnexpectedToken {
                span,
                while_parsing: name,
                wanted: Wanted::Ident,
                got_token: token.token_type_name(),
            },
        ),
        Err(e) => Err(e),
    }
}

} // verus!
