//! A value that is either written inline or pulled in from another file.

use crate::error::ParseError;
use crate::parser::{spec_drive, LogixParser};
use crate::token::str_lit::spec_lit_text;
use crate::token::{Action, Brace, Token, TokenView};
use crate::type_trait::{LogixType, LogixTypeDescriptor, Value};
use vstd::prelude::*;

verus! {

/// Either the logical path of a referenced file, or an inline value.
#[derive(Debug, PartialEq, Eq)]
pub enum Data<T> {
    ByPath(String),
    Inline(T),
}

impl<T: LogixType> LogixType for Data<T> {
    fn descriptor() -> LogixTypeDescriptor {
        T::descriptor()
    }

    fn default_value() -> Option<Self> {
        None
    }

    fn logix_parse(p: &mut LogixParser) -> (r: Result<Value<Self>, ParseError>)
        ensures
            !old(p).state.eof ==> ({
                let d = spec_drive(
                    old(p).file.spec_data(),
                    old(p).state,
                    old(p).state.last_was_newline,
                );
                &&& (d.token == Result::<TokenView, crate::error::TokenErrorView>::Ok(
                    TokenView::Action(Action::Include),
                ) ==> (r matches Ok(v) ==> v.value is ByPath))
                &&& (d.token matches Ok(t) ==> (!(t is Action) ==> (r matches Ok(v) ==> v.value
                    is Inline)))
                &&& (d.token matches Err(ev) ==> (r matches Err(e) && e
                    matches ParseError::TokenError { error, .. } && error@ == ev))
                &&& (d.token == Result::<TokenView, crate::error::TokenErrorView>::Ok(
                    TokenView::Action(Action::Include),
                ) ==> ({
                    let data = old(p).file.spec_data();
                    let d2 = spec_drive(data, d.state, d.state.last_was_newline);
                    &&& (d2.token is Err ==> r is Err)
                    &&& (d2.token matches Ok(t2) ==> (t2 != (TokenView::Brace {
                        start: true,
                        brace: Brace::Paren,
                    }) ==> r is Err))
                    &&& (d2.token == Result::<TokenView, crate::error::TokenErrorView>::Ok(
                        TokenView::Brace { start: true, brace: Brace::Paren },
                    ) ==> ({
                        let d3 = spec_drive(data, d2.state, d2.state.last_was_newline);
                        match d3.token {
                            Ok(t3) => (match t3 {
                                TokenView::LitStr(l) => (match spec_lit_text(l) {
                                    Some(txt) => (r matches Ok(v) ==> (v.value
                                        matches Data::ByPath(q) && q@ == txt)),
                                    None => r is Err,
                                }),
                                _ => r is Err,
                            }),
                            Err(_) => r is Err,
                        }
                    }))
                }))
            }),
            old(p).state.eof ==> (r matches Ok(v) ==> v.value is Inline),
    {
        // Look one token ahead: an action marker wins over an inline value.
        let ghost gdata = old(p).file.spec_data();
        let ghost st0 = old(p).state;
        let saved = p.state;
        match p.next_token() {
            Ok((span, Token::Action(Action::Include))) => {
                proof {
                    if !st0.eof {
                        crate::parser::lemma_drive_flags(gdata, st0, st0.last_was_newline);
                    }
                }
                match crate::action::for_included_file(span, p) {
                    Ok(v) => {
                        let Value { span, value: (path, _) } = v;
                        Ok(Value { span, value: Data::ByPath(path) })
                    },
                    Err(e) => Err(e),
                }
            },
            Ok(_) => {
                p.state = saved;
                match T::logix_parse(p) {
                    Ok(v) => {
                        let Value { value, span } = v;
                        Ok(Value { value: Data::Inline(value), span })
                    },
                    Err(e) => Err(e),
                }
            },
            Err(e) => Err(e),
        }
    }
}

} // verus!
