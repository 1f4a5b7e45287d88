//! Resolving action markers: the file-inclusion action reads another file
//! through the driver's loader and hands its contents on.

use crate::error::{IncludeError, ParseError, TokenErrorView};
use crate::loader::CachedFile;
use crate::parser::{spec_drive, LogixParser};
use crate::span::SourceSpan;
use crate::token::str_lit::spec_lit_text;
use crate::token::{Action, Brace, Token, TokenView};
use crate::type_trait::{LogixType, Value};
use crate::types::valid_path::ValidPath;
use vstd::prelude::*;

verus! {

/// Resolve a file-inclusion: parse the parenthesised path, open the file
/// through the loader, and yield its logical path and contents.  The span
/// covers the action marker and the parenthesised path.
#[verifier::rlimit(100)]
#[verifier::spinoff_prover]
pub(crate) fn for_included_file(span: SourceSpan, p: &mut LogixParser) -> (r: Result<
    Value<(String, CachedFile)>,
    ParseError,
>)
    requires
        old(p).wf(),
        span.file.same_file(&old(p).file),
    ensures
        final(p).wf(),
        final(p).file.same_file(&old(p).file),
        final(p).state.cur_pos >= old(p).state.cur_pos,
        r matches Ok(v) ==> v.span.file.same_file(&old(p).file),
        r matches Err(e) ==> !(e matches crate::error::ParseError::FsError(_)),
        r matches Err(e) ==> crate::parser::dup_warning_witnessed(old(p).file.spec_data(), e),
        r matches Err(e) ==> (e matches ParseError::IncludeError { error, .. } ==> error
            is Open),
        r matches Ok(v) ==> exists|i: int|
            0 <= i < final(p).loader.spec_files().len() && final(p).loader.spec_files()[
                i
            ].same_file(&v.value.1),
        old(p).state.eof ==> r is Err,
        !old(p).state.eof ==> ({
            let data = old(p).file.spec_data();
            let d2 = spec_drive(data, old(p).state, old(p).state.last_was_newline);
            &&& (d2.token is Err ==> r is Err)
            &&& (d2.token matches Ok(t2) ==> (t2 != (TokenView::Brace {
                start: true,
                brace: Brace::Paren,
            }) ==> r is Err))
            &&& (d2.token == Result::<TokenView, TokenErrorView>::Ok(
                TokenView::Brace { start: true, brace: Brace::Paren },
            ) ==> ({
                let d3 = spec_drive(data, d2.state, d2.state.last_was_newline);
                match d3.token {
                    Ok(t3) => (match t3 {
                        TokenView::LitStr(l) => (match spec_lit_text(l) {
                            Some(txt) => (r matches Ok(v) ==> v.value.0@ == txt),
                            None => r is Err,
                        }),
                        _ => r is Err,
                    }),
                    Err(_) => r is Err,
                }
            }))
        }),
{
    let ghost data = old(p).file.spec_data();
    let ghost st0 = old(p).state;
    let open = match p.req_token("inclusion", Token::Brace { start: true, brace: Brace::Paren }) {
        Ok(s) => s,
        Err(e) => {
            return Err(e);
        },
    };
    proof {
        if !st0.eof {
            crate::parser::lemma_drive_flags(data, st0, st0.last_was_newline);
        }
    }
    let path = match ValidPath::logix_parse(p) {
        Ok(v) => v,
        Err(e) => {
            return Err(e);
        },
    };
    let close = match p.req_token("inclusion", Token::Brace { start: false, brace: Brace::Paren })
        {
        Ok(s) => s,
        Err(e) => {
            return Err(e);
        },
    };
    let full_span = path.span.join(&open).join(&close).join(&span);
    let path_text = <String as vstd::string::StringExecFns>::from_str(path.value.as_path());
    match p.open_file(path_text.as_str()) {
        Ok(file) => Ok(Value { span: full_span, value: (path_text, file) }),
        Err(error) => Err(
            ParseError::IncludeError {
                span: full_span,
                while_parsing: "string",
                error: IncludeError::Open(error),
            },
        ),
    }
}

/// Resolve an action in a string position: the referenced file's bytes
/// must be valid UTF-8 and become the string's value.
pub fn for_string_data(action: Action, span: SourceSpan, p: &mut LogixParser) -> (r: Result<
    Value<String>,
    ParseError,
>)
    requires
        old(p).wf(),
        span.file.same_file(&old(p).file),
    ensures
        final(p).wf(),
        final(p).file.same_file(&old(p).file),
        final(p).state.cur_pos >= old(p).state.cur_pos,
        r matches Ok(v) ==> v.span.file.same_file(&old(p).file),
        r matches Err(e) ==> !(e matches crate::error::ParseError::FsError(_)),
        r matches Err(e) ==> crate::parser::dup_warning_witnessed(old(p).file.spec_data(), e),
        r matches Ok(v) ==> exists|i: int|
            0 <= i < final(p).loader.spec_files().len() && vstd::utf8::valid_utf8(
                final(p).loader.spec_files()[i].spec_data(),
            ) && v.value@ == vstd::utf8::decode_utf8(final(p).loader.spec_files()[i].spec_data()),
        r matches Err(e) ==> (e matches ParseError::IncludeError { span: sp, error, .. } ==> (
        error is NotUtf8 ==> exists|i: int|
            0 <= i < final(p).loader.spec_files().len() && !vstd::utf8::valid_utf8(
                (#[trigger] final(p).loader.spec_files()[i]).spec_data(),
            ) && vstd::utf8::partial_valid_utf8(
                final(p).loader.spec_files()[i].spec_data(),
                sp.spec_pos() as int,
            ) && (forall|j: int|
                sp.spec_pos() < j <= final(p).loader.spec_files()[i].spec_data().len()
                    ==> !vstd::utf8::partial_valid_utf8(
                    final(p).loader.spec_files()[i].spec_data(),
                    j,
                )))),
{
    match action {
        Action::Include => {
            let file = match for_included_file(span, p) {
                Ok(v) => v,
                Err(e) => {
                    return Err(e);
                },
            };
            let ghost gfile = file;
            let Value { span: vspan, value: (_, data_file) } = file;
            let text = match crate::text::utf8_to_string(data_file.data().as_slice()) {
                Ok(t) => t,
                Err(valid_up_to) => {
                    proof {
                        let j = choose|j: int|
                            0 <= j < p.loader.spec_files().len() && p.loader.spec_files()[
                                j
                            ].same_file(&gfile.value.1);
                        assert(p.loader.spec_files()[j].spec_data() == data_file.spec_data());
                    }
                    return Err(
                        ParseError::IncludeError {
                            span: SourceSpan::from_pos(&data_file, valid_up_to),
                            while_parsing: "string",
                            error: IncludeError::NotUtf8,
                        },
                    );
                },
            };
            proof {
                let i = choose|i: int|
                    0 <= i < p.loader.spec_files().len() && p.loader.spec_files()[i].same_file(
                        &gfile.value.1,
                    );
                assert(p.loader.spec_files()[i].spec_data() == data_file.spec_data());
                assert(vstd::utf8::valid_utf8(p.loader.spec_files()[i].spec_data()));
                assert(text@ == vstd::utf8::decode_utf8(p.loader.spec_files()[i].spec_data()));
            }
            Ok(Value { span: vspan, value: text })
        },
    }
}

} // verus!
