//! A path to an executable: either a full path or a bare file name.  A
//! relative path is refused to avoid surprises when such a value names,
//! say, an editor.  Looking a name up on the search path is outside this
//! library; only the value and its invariant live here.

use crate::error::{ParseError, PathError, Wanted};
use crate::parser::{span_matches, spec_drive, LogixParser};
use crate::type_trait::{LogixType, LogixTypeDescriptor, LogixValueDescriptor, Value};
use crate::token::rules::spec_parse_token;
use crate::token::str_lit::spec_lit_text;
use crate::token::TokenView;
use crate::types::valid_path::{
    is_absolute, is_name_only, path_chars_ok, FullPath, NameOnlyPath, ValidPath,
};
use vstd::prelude::*;

verus! {

/// Where the executable lives: a full path, or a name to be looked up.
#[derive(Debug, PartialEq, Eq, Hash)]
pub enum Location {
    Path(FullPath),
    Name(NameOnlyPath),
}

/// A validated executable location.
#[derive(Debug, PartialEq, Eq, Hash)]
pub struct ExecutablePath {
    pub loc: Location,
}

impl Clone for ExecutablePath {
    fn clone(&self) -> (r: Self)
        ensures
            r.spec_path() == self.spec_path(),
    {
        ExecutablePath {
            loc: match &self.loc {
                Location::Path(p) => Location::Path(p.clone()),
                Location::Name(p) => Location::Name(p.clone()),
            },
        }
    }
}

impl ExecutablePath {
    pub open spec fn spec_path(&self) -> Seq<char> {
        match self.loc {
            Location::Path(p) => p.path@,
            Location::Name(p) => p.path@,
        }
    }

    pub open spec fn wf(&self) -> bool {
        match self.loc {
            Location::Path(p) => p.wf(),
            Location::Name(p) => p.wf(),
        }
    }

    /// The held path text.
    pub fn as_path(&self) -> (r: &str)
        ensures
            r@ == self.spec_path(),
    {
        match &self.loc {
            Location::Path(p) => p.as_path(),
            Location::Name(p) => p.as_path(),
        }
    }

    /// Append a relative path, keeping the location kind.
    pub fn join(&self, path: &str) -> (r: Result<ExecutablePath, PathError>)
        requires
            self.wf(),
        ensures
            r matches Ok(p) ==> p.wf(),
    {
        match &self.loc {
            Location::Path(p) => match p.join(path) {
                Ok(j) => Ok(ExecutablePath { loc: Location::Path(j) }),
                Err(e) => Err(e),
            },
            Location::Name(p) => match p.join(path) {
                Ok(j) => Ok(ExecutablePath { loc: Location::Name(j) }),
                Err(e) => Err(e),
            },
        }
    }

    /// Validate a string: a full path or a bare name; a relative path is
    /// refused.
    pub fn try_from_str(v: &str) -> (r: Result<ExecutablePath, PathError>)
        ensures
            r matches Ok(p) ==> p.wf() && p.spec_path() == v@ && path_chars_ok(v@) && ((p.loc
                is Path) <==> is_absolute(v@)) && ((p.loc is Name) <==> is_name_only(v@)),
            (r is Ok) <==> (path_chars_ok(v@) && v@.len() > 0 && (is_absolute(v@)
                || is_name_only(v@))),
            r matches Err(e) ==> (path_chars_ok(v@) && v@.len() > 0 ==> e
                == PathError::NotFullOrNameOnly),
    {
        match ValidPath::try_from_str(v) {
            Ok(ValidPath::Full(p)) => Ok(ExecutablePath { loc: Location::Path(p) }),
            Ok(ValidPath::Name(p)) => Ok(ExecutablePath { loc: Location::Name(p) }),
            Ok(ValidPath::Rel(_)) => Err(PathError::NotFullOrNameOnly),
            Err(e) => Err(e),
        }
    }
}

impl LogixType for ExecutablePath {
    fn descriptor() -> LogixTypeDescriptor {
        LogixTypeDescriptor {
            name: "ExecutablePath",
            doc: "The name of or full path to an executable file",
            value: LogixValueDescriptor::Native,
        }
    }

    fn default_value() -> Option<Self> {
        None
    }

    fn logix_parse(p: &mut LogixParser) -> (r: Result<Value<Self>, ParseError>)
        ensures
            old(p).state.eof ==> r is Err,
            r matches Err(e) ==> (e matches ParseError::UnexpectedToken {
                wanted: w,
                while_parsing: wpl,
                ..
            } ==> w == Wanted::ExecutablePath && wpl == "ExecutablePath"),
            !old(p).state.eof ==> ({
                let d = spec_drive(
                    old(p).file.spec_data(),
                    old(p).state,
                    old(p).state.last_was_newline,
                );
                let res = spec_parse_token(old(p).file.spec_data().skip(d.emit.cur_pos as int));
                match d.token {
                    Ok(t) => (match t {
                        TokenView::LitStr(l) => (match spec_lit_text(l) {
                            Some(txt) => ((r is Ok) <==> (path_chars_ok(txt) && txt.len() > 0 && (
                            is_absolute(txt) || is_name_only(txt)))) && (r matches Ok(v) ==> v.value.spec_path() == txt && span_matches(
                                v.span,
                                old(p).file,
                                d.emit,
                                res.start,
                                res.end,
                            )),
                            None => r is Err,
                        }),
                        _ => r is Err,
                    }),
                    Err(_) => r is Err,
                }
            }),
    {
        match p.next_token() {
            Ok((span, crate::token::Token::Literal(crate::token::Literal::Str(lit)))) => {
                match ValidPath::from_lit(&lit, &span) {
                    Ok(ValidPath::Full(path)) => Ok(
                        Value { value: ExecutablePath { loc: Location::Path(path) }, span },
                    ),
                    Ok(ValidPath::Name(path)) => Ok(
                        Value { value: ExecutablePath { loc: Location::Name(path) }, span },
                    ),
                    Ok(ValidPath::Rel(_)) => Err(
                        ParseError::PathError { span, error: PathError::NotFullOrNameOnly },
                    ),
                    Err(e) => Err(e),
                }
            },
            Ok((span, token)) => Err(
                ParseError::UnexpectedToken {
                    span,
                    while_parsing: "ExecutablePath",
                    wanted: Wanted::ExecutablePath,
                    got_token: token.token_type_name(),
                },
            ),
            Err(e) => Err(e),
        }
    }
}

impl ExecutablePath {
    /// Replace the final path component with `name`, keeping the
    /// location kind.
    pub fn with_file_name(&self, name: &str) -> (r: ExecutablePath)
        ensures
            r.spec_path() == crate::types::valid_path::spec_with_file_name(
                self.spec_path(),
                name@,
            ),
            (r.loc is Path) == (self.loc is Path),
    {
        ExecutablePath {
            loc: match &self.loc {
                Location::Path(p) => Location::Path(p.with_file_name(name)),
                Location::Name(p) => Location::Name(p.with_file_name(name)),
            },
        }
    }

    /// Replace the final component's extension with `ext`, keeping the
    /// location kind.
    pub fn with_extension(&self, ext: &str) -> (r: ExecutablePath)
        ensures
            r.spec_path() == crate::types::valid_path::spec_with_extension(
                self.spec_path(),
                ext@,
            ),
            (r.loc is Path) == (self.loc is Path),
    {
        ExecutablePath {
            loc: match &self.loc {
                Location::Path(p) => Location::Path(p.with_extension(ext)),
                Location::Name(p) => Location::Name(p.with_extension(ext)),
            },
        }
    }
}

} // verus!
