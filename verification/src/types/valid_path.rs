//! Validated path values.  A path here is a plain string with an
//! invariant; the filesystem itself is never consulted.  Separators are
//! `/`, and the characters `\n`, `|`, `"` and `'` are refused in every
//! class.

use crate::error::{ParseError, PathError, TokenErrorView, Wanted};
use crate::parser::{span_matches, spec_drive, LogixParser};
use crate::token::rules::spec_parse_token;
use crate::token::str_lit::spec_lit_text;
use crate::token::{spec_type_name, Literal, StrLit, Token, TokenView};
use crate::type_trait::{LogixType, LogixTypeDescriptor, LogixValueDescriptor, Value};
use crate::span::SourceSpan;
use vstd::prelude::*;
use vstd::string::{StrSliceExecFns, StringExecFns};

verus! {

/// No byte a path may not contain: newline, pipe, double or single quote.
pub open spec fn path_chars_ok(s: Seq<char>) -> bool {
    forall|i: int|
        0 <= i < s.len() ==> (s[i] != '\n' && s[i] != '|' && s[i] != '"' && s[i] != '\'')
}

pub open spec fn is_absolute(s: Seq<char>) -> bool {
    s.len() > 0 && s[0] == '/'
}

/// A single file or directory name: relative, non-empty once trailing
/// separators are dropped, with no interior separator, and not a dot
/// form.
pub open spec fn is_name_only(s: Seq<char>) -> bool {
    let t = strip_trailing_slashes(s);
    &&& !is_absolute(s)
    &&& t.len() > 0
    &&& (forall|i: int| 0 <= i < t.len() ==> t[i] != '/')
    &&& t != seq!['.']
    &&& t != seq!['.', '.']
}

pub open spec fn strip_trailing_slashes(s: Seq<char>) -> Seq<char>
    decreases s.len(),
{
    if s.len() > 0 && s.last() == '/' {
        strip_trailing_slashes(s.drop_last())
    } else {
        s
    }
}

/// A validated path: absolute, relative, or a bare name.
#[derive(Debug, PartialEq, Eq, Hash)]
pub enum ValidPath {
    Full(FullPath),
    Rel(RelPath),
    Name(NameOnlyPath),
}

/// A validated absolute path.
#[derive(Debug, PartialEq, Eq, Hash)]
pub struct FullPath {
    pub path: String,
}

/// A validated relative path.
#[derive(Debug, PartialEq, Eq, Hash)]
pub struct RelPath {
    pub path: String,
}

/// A validated file or directory name without any other path components.
#[derive(Debug, PartialEq, Eq, Hash)]
pub struct NameOnlyPath {
    pub path: String,
}

impl Clone for FullPath {
    fn clone(&self) -> (r: Self)
        ensures
            r.path@ == self.path@,
    {
        FullPath { path: self.path.clone() }
    }
}

impl Clone for RelPath {
    fn clone(&self) -> (r: Self)
        ensures
            r.path@ == self.path@,
    {
        RelPath { path: self.path.clone() }
    }
}

impl Clone for NameOnlyPath {
    fn clone(&self) -> (r: Self)
        ensures
            r.path@ == self.path@,
    {
        NameOnlyPath { path: self.path.clone() }
    }
}

impl Clone for ValidPath {
    fn clone(&self) -> (r: Self)
        ensures
            r.spec_path() == self.spec_path(),
            r is Full == self is Full,
            r is Rel == self is Rel,
            r is Name == self is Name,
    {
        match self {
            ValidPath::Full(v) => ValidPath::Full(v.clone()),
            ValidPath::Rel(v) => ValidPath::Rel(v.clone()),
            ValidPath::Name(v) => ValidPath::Name(v.clone()),
        }
    }
}

impl FullPath {
    /// The held text, as ghost characters.
    pub open spec fn spec_path(&self) -> Seq<char> {
        self.path@
    }

    pub open spec fn wf(&self) -> bool {
        is_absolute(self.path@)
    }

    /// The held path text.
    pub fn as_path(&self) -> (r: &str)
        ensures
            r@ == self.path@,
    {
        self.path.as_str()
    }

    /// Append a relative path under this one; an absolute argument is
    /// refused.
    pub fn join(&self, path: &str) -> (r: Result<FullPath, PathError>)
        requires
            self.wf(),
        ensures
            r matches Ok(p) ==> p.wf() && p.path@ == spec_join(self.path@, path@),
            (r is Err) <==> is_absolute(path@),
            r matches Err(e) ==> e == PathError::NotRelative,
    {
        match join_text(self.path.as_str(), path) {
            Some(joined) => Ok(FullPath { path: joined }),
            None => Err(PathError::NotRelative),
        }
    }

    /// Validate a string as an absolute path.
    pub fn try_from_str(v: &str) -> (r: Result<FullPath, PathError>)
        ensures
            r matches Ok(p) ==> p.wf() && p.path@ == v@ && path_chars_ok(v@),
    {
        match ValidPath::try_from_str(v) {
            Ok(ValidPath::Full(p)) => Ok(p),
            Ok(_) => Err(PathError::NotAbsolute),
            Err(e) => Err(e),
        }
    }
}

impl RelPath {
    /// The held text, as ghost characters.
    pub open spec fn spec_path(&self) -> Seq<char> {
        self.path@
    }

    pub open spec fn wf(&self) -> bool {
        !is_absolute(self.path@) && self.path@.len() > 0
    }

    /// The held path text.
    pub fn as_path(&self) -> (r: &str)
        ensures
            r@ == self.path@,
    {
        self.path.as_str()
    }

    /// Append a relative path under this one.
    pub fn join(&self, path: &str) -> (r: Result<RelPath, PathError>)
        requires
            self.wf(),
        ensures
            r matches Ok(p) ==> p.wf() && p.path@ == spec_join(self.path@, path@),
            (r is Err) <==> is_absolute(path@),
            r matches Err(e) ==> e == PathError::NotRelative,
    {
        match join_text(self.path.as_str(), path) {
            Some(joined) => Ok(RelPath { path: joined }),
            None => Err(PathError::NotRelative),
        }
    }

    /// Validate a string as a relative path (a bare name counts).
    pub fn try_from_str(v: &str) -> (r: Result<RelPath, PathError>)
        ensures
            r matches Ok(p) ==> p.path@ == v@ && !is_absolute(v@) && path_chars_ok(v@),
    {
        match ValidPath::try_from_str(v) {
            Ok(ValidPath::Rel(p)) => Ok(p),
            Ok(ValidPath::Name(p)) => Ok(RelPath { path: p.path }),
            Ok(_) => Err(PathError::NotRelative),
            Err(e) => Err(e),
        }
    }
}

impl NameOnlyPath {
    /// The held text, as ghost characters.
    pub open spec fn spec_path(&self) -> Seq<char> {
        self.path@
    }

    pub open spec fn wf(&self) -> bool {
        !is_absolute(self.path@) && self.path@.len() > 0
    }

    /// The held path text.
    pub fn as_path(&self) -> (r: &str)
        ensures
            r@ == self.path@,
    {
        self.path.as_str()
    }

    /// Append a relative path under this one.
    pub fn join(&self, path: &str) -> (r: Result<NameOnlyPath, PathError>)
        requires
            self.wf(),
        ensures
            r matches Ok(p) ==> p.wf() && p.path@ == spec_join(self.path@, path@),
            (r is Err) <==> is_absolute(path@),
            r matches Err(e) ==> e == PathError::NotRelative,
    {
        match join_text(self.path.as_str(), path) {
            Some(joined) => Ok(NameOnlyPath { path: joined }),
            None => Err(PathError::NotRelative),
        }
    }

    /// Validate a string as a bare file or directory name.
    pub fn try_from_str(v: &str) -> (r: Result<NameOnlyPath, PathError>)
        ensures
            r matches Ok(p) ==> p.wf() && p.path@ == v@ && is_name_only(v@) && path_chars_ok(v@),
    {
        match ValidPath::try_from_str(v) {
            Ok(ValidPath::Name(p)) => Ok(p),
            Ok(_) => Err(PathError::NotName),
            Err(e) => Err(e),
        }
    }
}

/// `base` and `tail` joined with one separator, unless `tail` is
/// absolute.
pub open spec fn spec_join(base: Seq<char>, tail: Seq<char>) -> Seq<char> {
    if base.len() > 0 && base.last() == '/' {
        base + tail
    } else {
        base + seq!['/'] + tail
    }
}

fn join_text(base: &str, tail: &str) -> (r: Option<String>)
    ensures
        r matches Some(s) ==> s@ == spec_join(base@, tail@) && !is_absolute(tail@),
        r is None ==> is_absolute(tail@),
        r matches Some(s) ==> (base@.len() > 0 && base@[0] == '/' ==> is_absolute(s@)),
        r matches Some(s) ==> (base@.len() > 0 && base@[0] != '/' ==> (s@.len() > 0 && s@[0]
            != '/')),
{
    let tn = tail.unicode_len();
    if tn > 0 && tail.get_char(0) == '/' {
        return None;
    }
    let bn = base.unicode_len();
    let mut out = base.to_owned();
    if !(bn > 0 && base.get_char(bn - 1) == '/') {
        crate::text::push_str(&mut out, "/");
        proof {
            reveal_strlit("/");
        }
    } else {
        proof {
            assert(base@.last() == '/');
        }
    }
    crate::text::push_str(&mut out, tail);
    proof {
        reveal_strlit("/");
        if bn > 0 && base@[0] == '/' {
            assert(out@[0] == '/');
        }
    }
    Some(out)
}

impl ValidPath {
    /// Which class the value is in, and its text.
    pub open spec fn spec_path(&self) -> Seq<char> {
        match self {
            ValidPath::Full(p) => p.path@,
            ValidPath::Rel(p) => p.path@,
            ValidPath::Name(p) => p.path@,
        }
    }

    pub open spec fn wf(&self) -> bool {
        match self {
            ValidPath::Full(p) => p.wf(),
            ValidPath::Rel(p) => p.wf(),
            ValidPath::Name(p) => p.wf(),
        }
    }

    /// The held path text.
    pub fn as_path(&self) -> (r: &str)
        ensures
            r@ == self.spec_path(),
    {
        match self {
            ValidPath::Full(p) => p.as_path(),
            ValidPath::Rel(p) => p.as_path(),
            ValidPath::Name(p) => p.as_path(),
        }
    }

    /// Append a relative path, keeping the class.
    pub fn join(&self, path: &str) -> (r: Result<ValidPath, PathError>)
        requires
            self.wf(),
        ensures
            r matches Ok(p) ==> p.wf() && p.spec_path() == spec_join(self.spec_path(), path@)
                && ((p is Full) == (self is Full)) && ((p is Rel) == (self is Rel)) && ((p
                is Name) == (self is Name)),
            (r is Err) <==> is_absolute(path@),
            r matches Err(e) ==> e == PathError::NotRelative,
    {
        match self {
            ValidPath::Full(v) => match v.join(path) {
                Ok(p) => Ok(ValidPath::Full(p)),
                Err(e) => Err(e),
            },
            ValidPath::Rel(v) => match v.join(path) {
                Ok(p) => Ok(ValidPath::Rel(p)),
                Err(e) => Err(e),
            },
            ValidPath::Name(v) => match v.join(path) {
                Ok(p) => Ok(ValidPath::Name(p)),
                Err(e) => Err(e),
            },
        }
    }

    /// Validate a string: the characters must be acceptable, the path
    /// non-empty; an absolute path is `Full`, a bare name `Name`, and
    /// anything else `Rel`.
    pub fn try_from_str(v: &str) -> (r: Result<ValidPath, PathError>)
        ensures
            match r {
                Ok(p) => {
                    &&& p.wf()
                    &&& p.spec_path() == v@
                    &&& path_chars_ok(v@)
                    &&& v@.len() > 0
                    &&& (p is Full <==> is_absolute(v@))
                    &&& (p is Name <==> is_name_only(v@))
                },
                Err(e) => {
                    ||| (e matches PathError::InvalidChar(c) && !path_chars_ok(v@) && exists|
                        i: int,
                    |
                        0 <= i < v@.len() && v@[i] == c && (forall|j: int|
                            0 <= j < i ==> (v@[j] != '\n' && v@[j] != '|' && v@[j] != '"'
                                && v@[j] != '\'')))
                    ||| (e == PathError::EmptyPath && v@.len() == 0)
                },
            },
    {
        let n = v.unicode_len();
        let mut i: usize = 0;
        while i < n
            invariant
                i <= n,
                n == v@.len(),
                forall|k: int|
                    0 <= k < i ==> (v@[k] != '\n' && v@[k] != '|' && v@[k] != '"' && v@[k]
                        != '\''),
            decreases n - i,
        {
            let c = v.get_char(i);
            if c == '\n' || c == '|' || c == '"' || c == '\'' {
                return Err(PathError::InvalidChar(c));
            }
            i = i + 1;
        }
        if n == 0 {
            return Err(PathError::EmptyPath);
        }
        if v.get_char(0) == '/' {
            return Ok(ValidPath::Full(FullPath { path: v.to_owned() }));
        }
        // A bare name: no separator once trailing separators are dropped,
        // and not a dot form.
        let mut t: usize = n;
        proof {
            assert(v@.take(n as int) =~= v@);
        }
        while t > 0 && v.get_char(t - 1) == '/'
            invariant
                t <= n,
                n == v@.len(),
                strip_trailing_slashes(v@) == strip_trailing_slashes(v@.take(t as int)),
            decreases t,
        {
            proof {
                assert(v@.take(t as int).drop_last() =~= v@.take(t - 1));
                assert(v@.take(t as int).last() == v@[t - 1]);
            }
            t = t - 1;
        }
        proof {
            if t > 0 {
                assert(v@.take(t as int).last() == v@[t - 1]);
            }
            assert(strip_trailing_slashes(v@.take(t as int)) == v@.take(t as int));
            assert(strip_trailing_slashes(v@) == v@.take(t as int));
        }
        let mut name = t > 0;
        let mut k: usize = 0;
        while k < t
            invariant
                k <= t <= n,
                n == v@.len(),
                name == (t > 0 && (forall|j: int| 0 <= j < k ==> v@.take(t as int)[j] != '/')),
            decreases t - k,
        {
            if v.get_char(k) == '/' {
                proof {
                    assert(v@.take(t as int)[k as int] == v@[k as int]);
                }
                name = false;
            }
            proof {
                assert(v@.take(t as int)[k as int] == v@[k as int]);
            }
            k = k + 1;
        }
        let is_dot = t == 1 && v.get_char(0) == '.';
        let is_dotdot = t == 2 && v.get_char(0) == '.' && v.get_char(1) == '.';
        proof {
            if t == 1 && v@[0] == '.' {
                assert(v@.take(1) =~= seq!['.']);
            }
            if t == 2 && v@[0] == '.' && v@[1] == '.' {
                assert(v@.take(2) =~= seq!['.', '.']);
            }
            if v@.take(t as int) == seq!['.'] {
                assert(v@.take(t as int).len() == 1);
                assert(v@[0] == '.');
            }
            if v@.take(t as int) == seq!['.', '.'] {
                assert(v@.take(t as int).len() == 2);
                assert(v@[0] == '.' && v@[1] == '.');
            }
        }
        if name && !is_dot && !is_dotdot {
            Ok(ValidPath::Name(NameOnlyPath { path: v.to_owned() }))
        } else {
            Ok(ValidPath::Rel(RelPath { path: v.to_owned() }))
        }
    }

    /// Validate a decoded string literal as a path of this class.
    pub fn from_lit(lit: &StrLit, span: &SourceSpan) -> (r: Result<ValidPath, ParseError>)
        ensures
            r matches Ok(p) ==> p.wf(),
            r matches Err(e) ==> (e matches ParseError::PathError { .. } || e
                matches ParseError::StrEscError { .. }),
            (match spec_lit_text(lit@) {
                Some(txt) => ((r is Ok) <==> (path_chars_ok(txt) && txt.len() > 0)) && (r
                    matches Ok(p) ==> p.spec_path() == txt && ((p is Full) <==> is_absolute(txt))
                    && ((p is Name) <==> is_name_only(txt))) && (r matches Err(e) ==> e
                    matches ParseError::PathError { .. }),
                None => (r matches Err(e) && e matches ParseError::StrEscError { .. }),
            }),
    {
        let text = match lit.decode_str(span) {
            Ok(t) => t,
            Err(e) => {
                return Err(e);
            },
        };
        match ValidPath::try_from_str(text.as_str()) {
            Ok(p) => Ok(p),
            Err(error) => Err(ParseError::PathError { span: span.clone(), error }),
        }
    }
}

/// Parse a string literal token and validate it as a path class; shared
/// by every path type's parser.
fn parse_path_token(p: &mut LogixParser, name: &'static str, wanted: Wanted) -> (r: Result<
    (SourceSpan, ValidPath),
    ParseError,
>)
    requires
        old(p).wf(),
    ensures
        final(p).wf(),
        final(p).file.same_file(&old(p).file),
        final(p).state.cur_pos >= old(p).state.cur_pos,
        r matches Ok(v) ==> v.0.file.same_file(&old(p).file) && v.1.wf(),
        r matches Ok(v) ==> final(p).state.cur_pos > old(p).state.cur_pos,
        r matches Err(e) ==> !(e matches ParseError::FsError(_)) && !(e
            matches ParseError::IncludeError { .. }),
        old(p).state.eof ==> (r matches Err(e) && e matches ParseError::UnexpectedToken {
            got_token,
            wanted: w,
            while_parsing: wpl,
            ..
        } && got_token@ == spec_type_name(TokenView::Newline(true)) && w == wanted && wpl
            == name),
        !old(p).state.eof ==> ({
            let d = spec_drive(
                old(p).file.spec_data(),
                old(p).state,
                old(p).state.last_was_newline,
            );
            let res = spec_parse_token(old(p).file.spec_data().skip(d.emit.cur_pos as int));
            match d.token {
                Ok(t) => (match t {
                    TokenView::LitStr(l) => (match spec_lit_text(l) {
                        Some(txt) => ((r is Ok) <==> (path_chars_ok(txt) && txt.len() > 0)) && (r
                            matches Ok(v) ==> v.1.spec_path() == txt && ((v.1 is Full)
                            <==> is_absolute(txt)) && ((v.1 is Name) <==> is_name_only(txt))
                            && span_matches(v.0, old(p).file, d.emit, res.start, res.end)) && (r
                            matches Err(e) ==> e matches ParseError::PathError { .. }),
                        None => (r matches Err(e) && e matches ParseError::StrEscError { .. }),
                    }),
                    _ => (r matches Err(e) && e matches ParseError::UnexpectedToken {
                        got_token,
                        wanted: w,
                        while_parsing,
                        ..
                    } && got_token@ == spec_type_name(t) && w == wanted && while_parsing
                        == name),
                }),
                Err(ev) => (r matches Err(e) && e matches ParseError::TokenError {
                    error,
                    ..
                } && error@ == ev),
            }
        }),
{
    match p.next_token() {
        Ok((span, Token::Literal(Literal::Str(lit)))) => {
            match ValidPath::from_lit(&lit, &span) {
                Ok(path) => Ok((span, path)),
                Err(e) => Err(e),
            }
        },
        Ok((span, token)) => Err(
            ParseError::UnexpectedToken {
                span,
                while_parsing: name,
                wanted,
                got_token: token.token_type_name(),
            },
        ),
        Err(e) => Err(e),
    }
}

impl LogixType for ValidPath {
    fn descriptor() -> LogixTypeDescriptor {
        LogixTypeDescriptor {
            name: "ValidPath",
            doc: "A valid path",
            value: LogixValueDescriptor::Native,
        }
    }

    fn default_value() -> Option<Self> {
        None
    }

    fn logix_parse(p: &mut LogixParser) -> (r: Result<Value<Self>, ParseError>)
        ensures
            old(p).state.eof ==> r is Err,
            r matches Err(e) ==> !(e matches ParseError::IncludeError { .. }),
            r matches Err(e) ==> (e matches ParseError::UnexpectedToken {
                wanted: w,
                while_parsing: wpl,
                ..
            } ==> w == Wanted::ValidPath && wpl == "ValidPath"),
            !old(p).state.eof ==> ({
                let d = spec_drive(
                    old(p).file.spec_data(),
                    old(p).state,
                    old(p).state.last_was_newline,
                );
                let res = spec_parse_token(old(p).file.spec_data().skip(d.emit.cur_pos as int));
                match d.token {
                    Ok(t) => (match t {
                        TokenView::LitStr(l) => (match spec_lit_text(l) {
                            Some(txt) => ((r is Ok) <==> (path_chars_ok(txt) && txt.len() > 0
                                && true)) && (r matches Ok(v) ==> v.value.spec_path() == txt
                                && span_matches(v.span, old(p).file, d.emit, res.start, res.end)),
                            None => r is Err,
                        }),
                        _ => r is Err,
                    }),
                    Err(_) => r is Err,
                }
            }),
    {
        match parse_path_token(p, "ValidPath", Wanted::ValidPath) {
            Ok((span, path)) => Ok(Value { value: path, span }),
            Err(e) => Err(e),
        }
    }
}

impl LogixType for FullPath {
    fn descriptor() -> LogixTypeDescriptor {
        LogixTypeDescriptor {
            name: "FullPath",
            doc: "A full path",
            value: LogixValueDescriptor::Native,
        }
    }

    fn default_value() -> Option<Self> {
        None
    }

    fn logix_parse(p: &mut LogixParser) -> (r: Result<Value<Self>, ParseError>)
        ensures
            old(p).state.eof ==> r is Err,
            r matches Err(e) ==> (e matches ParseError::UnexpectedToken {
                wanted: w,
                while_parsing: wpl,
                ..
            } ==> w == Wanted::FullPath && wpl == "FullPath"),
            !old(p).state.eof ==> ({
                let d = spec_drive(
                    old(p).file.spec_data(),
                    old(p).state,
                    old(p).state.last_was_newline,
                );
                let res = spec_parse_token(old(p).file.spec_data().skip(d.emit.cur_pos as int));
                match d.token {
                    Ok(t) => (match t {
                        TokenView::LitStr(l) => (match spec_lit_text(l) {
                            Some(txt) => ((r is Ok) <==> (path_chars_ok(txt) && txt.len() > 0
                                && is_absolute(txt))) && (r matches Ok(v) ==> v.value.spec_path() == txt
                                && span_matches(v.span, old(p).file, d.emit, res.start, res.end)),
                            None => r is Err,
                        }),
                        _ => r is Err,
                    }),
                    Err(_) => r is Err,
                }
            }),
    {
        match parse_path_token(p, "FullPath", Wanted::FullPath) {
            Ok((span, ValidPath::Full(path))) => Ok(Value { value: path, span }),
            Ok((span, _)) => Err(
                ParseError::PathError { span, error: PathError::NotAbsolute },
            ),
            Err(e) => Err(e),
        }
    }
}

impl LogixType for RelPath {
    fn descriptor() -> LogixTypeDescriptor {
        LogixTypeDescriptor {
            name: "RelPath",
            doc: "A relative path",
            value: LogixValueDescriptor::Native,
        }
    }

    fn default_value() -> Option<Self> {
        None
    }

    fn logix_parse(p: &mut LogixParser) -> (r: Result<Value<Self>, ParseError>)
        ensures
            old(p).state.eof ==> r is Err,
            r matches Err(e) ==> (e matches ParseError::UnexpectedToken {
                wanted: w,
                while_parsing: wpl,
                ..
            } ==> w == Wanted::RelPath && wpl == "RelPath"),
            !old(p).state.eof ==> ({
                let d = spec_drive(
                    old(p).file.spec_data(),
                    old(p).state,
                    old(p).state.last_was_newline,
                );
                let res = spec_parse_token(old(p).file.spec_data().skip(d.emit.cur_pos as int));
                match d.token {
                    Ok(t) => (match t {
                        TokenView::LitStr(l) => (match spec_lit_text(l) {
                            Some(txt) => ((r is Ok) <==> (path_chars_ok(txt) && txt.len() > 0
                                && !is_absolute(txt))) && (r matches Ok(v) ==> v.value.spec_path() == txt
                                && span_matches(v.span, old(p).file, d.emit, res.start, res.end)),
                            None => r is Err,
                        }),
                        _ => r is Err,
                    }),
                    Err(_) => r is Err,
                }
            }),
    {
        match parse_path_token(p, "RelPath", Wanted::RelPath) {
            Ok((span, ValidPath::Rel(path))) => Ok(Value { value: path, span }),
            Ok((span, ValidPath::Name(path))) => Ok(
                Value { value: RelPath { path: path.path }, span },
            ),
            Ok((span, _)) => Err(
                ParseError::PathError { span, error: PathError::NotRelative },
            ),
            Err(e) => Err(e),
        }
    }
}

impl LogixType for NameOnlyPath {
    fn descriptor() -> LogixTypeDescriptor {
        LogixTypeDescriptor {
            name: "NameOnlyPath",
            doc: "A file or directory name",
            value: LogixValueDescriptor::Native,
        }
    }

    fn default_value() -> Option<Self> {
        None
    }

    fn logix_parse(p: &mut LogixParser) -> (r: Result<Value<Self>, ParseError>)
        ensures
            old(p).state.eof ==> r is Err,
            r matches Err(e) ==> (e matches ParseError::UnexpectedToken {
                wanted: w,
                while_parsing: wpl,
                ..
            } ==> w == Wanted::NameOnlyPath && wpl == "NameOnlyPath"),
            !old(p).state.eof ==> ({
                let d = spec_drive(
                    old(p).file.spec_data(),
                    old(p).state,
                    old(p).state.last_was_newline,
                );
                let res = spec_parse_token(old(p).file.spec_data().skip(d.emit.cur_pos as int));
                match d.token {
                    Ok(t) => (match t {
                        TokenView::LitStr(l) => (match spec_lit_text(l) {
                            Some(txt) => ((r is Ok) <==> (path_chars_ok(txt) && txt.len() > 0
                                && is_name_only(txt))) && (r matches Ok(v) ==> v.value.spec_path() == txt
                                && span_matches(v.span, old(p).file, d.emit, res.start, res.end)),
                            None => r is Err,
                        }),
                        _ => r is Err,
                    }),
                    Err(_) => r is Err,
                }
            }),
    {
        match parse_path_token(p, "NameOnlyPath", Wanted::NameOnlyPath) {
            Ok((span, ValidPath::Name(path))) => Ok(Value { value: path, span }),
            Ok((span, _)) => Err(ParseError::PathError { span, error: PathError::NotName }),
            Err(e) => Err(e),
        }
    }
}

/// Index of the last separator in `p`, or -1 when none occurs.
pub open spec fn spec_last_slash(p: Seq<char>) -> int
    decreases p.len(),
{
    if p.len() == 0 {
        -1
    } else if p[p.len() - 1] == '/' {
        p.len() - 1
    } else {
        spec_last_slash(p.drop_last())
    }
}

/// The text with its final component replaced by `name`: everything up
/// to and including the last separator (nothing when there is none),
/// then `name`.
pub open spec fn spec_with_file_name(p: Seq<char>, name: Seq<char>) -> Seq<char> {
    p.subrange(0, spec_last_slash(p) + 1) + name
}

/// Index of the dot that starts the final component's extension: the
/// last dot after the last separator, provided it is not the component's
/// first character; -1 when the component has no extension.
pub open spec fn spec_ext_dot(p: Seq<char>) -> int
    decreases p.len(),
{
    if p.len() == 0 {
        -1
    } else if p[p.len() - 1] == '/' {
        -1
    } else if p[p.len() - 1] == '.' {
        if p.len() - 1 > spec_last_slash(p) + 1 {
            p.len() - 1
        } else {
            -1
        }
    } else {
        spec_ext_dot(p.drop_last())
    }
}

/// The text with its final component's extension replaced by `ext`: the
/// part before the extension dot (the whole text when there is none),
/// then a dot and `ext` unless `ext` is empty.
pub open spec fn spec_with_extension(p: Seq<char>, ext: Seq<char>) -> Seq<char> {
    let stem = if spec_ext_dot(p) >= 0 {
        p.subrange(0, spec_ext_dot(p))
    } else {
        p
    };
    if ext.len() == 0 {
        stem
    } else {
        stem + seq!['.'] + ext
    }
}

/// Replace everything after the last separator with `name`.
fn with_file_name_text(p: &str, name: &str) -> (r: String)
    ensures
        r@ == spec_with_file_name(p@, name@),
{
    let n = p.unicode_len();
    let mut cut: usize = 0;
    let mut i: usize = 0;
    proof {
        assert(p@.subrange(0, 0) =~= Seq::<char>::empty());
    }
    while i < n
        invariant
            i <= n,
            n == p@.len(),
            cut <= i,
            cut as int == spec_last_slash(p@.subrange(0, i as int)) + 1,
        decreases n - i,
    {
        proof {
            assert(p@.subrange(0, i as int + 1).drop_last() =~= p@.subrange(0, i as int));
            assert(p@.subrange(0, i as int + 1).last() == p@[i as int]);
        }
        if p.get_char(i) == '/' {
            cut = i + 1;
        }
        i = i + 1;
    }
    proof {
        assert(p@.subrange(0, n as int) =~= p@);
    }
    let mut out = <String as StringExecFns>::from_str(p.substring_char(0, cut));
    out.append(name);
    out
}

/// Replace the final component's extension with `ext`.
fn with_extension_text(p: &str, ext: &str) -> (r: String)
    ensures
        r@ == spec_with_extension(p@, ext@),
{
    let n = p.unicode_len();
    let mut cut: usize = 0;
    let mut dot: usize = 0;
    let mut has_dot: bool = false;
    let mut i: usize = 0;
    proof {
        assert(p@.subrange(0, 0) =~= Seq::<char>::empty());
    }
    while i < n
        invariant
            i <= n,
            n == p@.len(),
            cut <= i,
            cut as int == spec_last_slash(p@.subrange(0, i as int)) + 1,
            has_dot ==> dot as int == spec_ext_dot(p@.subrange(0, i as int)) && dot < i,
            !has_dot ==> spec_ext_dot(p@.subrange(0, i as int)) == -1,
        decreases n - i,
    {
        proof {
            assert(p@.subrange(0, i as int + 1).drop_last() =~= p@.subrange(0, i as int));
            assert(p@.subrange(0, i as int + 1).last() == p@[i as int]);
        }
        let c = p.get_char(i);
        if c == '/' {
            cut = i + 1;
            has_dot = false;
        } else if c == '.' {
            if i > cut {
                dot = i;
                has_dot = true;
            } else {
                has_dot = false;
            }
        }
        i = i + 1;
    }
    proof {
        assert(p@.subrange(0, n as int) =~= p@);
    }
    let stem_end: usize = if has_dot {
        dot
    } else {
        n
    };
    let mut out = <String as StringExecFns>::from_str(p.substring_char(0, stem_end));
    if ext.unicode_len() > 0 {
        out.append(".");
        out.append(ext);
        proof {
            reveal_strlit(".");
            assert("."@ =~= seq!['.']);
            assert(out@ =~= spec_with_extension(p@, ext@));
        }
    }
    out
}

impl FullPath {
    /// Replace the final path component with `name`.
    pub fn with_file_name(&self, name: &str) -> (r: FullPath)
        ensures
            r.path@ == spec_with_file_name(self.path@, name@),
    {
        FullPath { path: with_file_name_text(self.path.as_str(), name) }
    }

    /// Replace the final component's extension with `ext`.
    pub fn with_extension(&self, ext: &str) -> (r: FullPath)
        ensures
            r.path@ == spec_with_extension(self.path@, ext@),
    {
        FullPath { path: with_extension_text(self.path.as_str(), ext) }
    }
}

impl RelPath {
    /// Replace the final path component with `name`.
    pub fn with_file_name(&self, name: &str) -> (r: RelPath)
        ensures
            r.path@ == spec_with_file_name(self.path@, name@),
    {
        RelPath { path: with_file_name_text(self.path.as_str(), name) }
    }

    /// Replace the final component's extension with `ext`.
    pub fn with_extension(&self, ext: &str) -> (r: RelPath)
        ensures
            r.path@ == spec_with_extension(self.path@, ext@),
    {
        RelPath { path: with_extension_text(self.path.as_str(), ext) }
    }
}

impl NameOnlyPath {
    /// Replace the final path component with `name`.
    pub fn with_file_name(&self, name: &str) -> (r: NameOnlyPath)
        ensures
            r.path@ == spec_with_file_name(self.path@, name@),
    {
        NameOnlyPath { path: with_file_name_text(self.path.as_str(), name) }
    }

    /// Replace the final component's extension with `ext`.
    pub fn with_extension(&self, ext: &str) -> (r: NameOnlyPath)
        ensures
            r.path@ == spec_with_extension(self.path@, ext@),
    {
        NameOnlyPath { path: with_extension_text(self.path.as_str(), ext) }
    }
}

impl ValidPath {
    /// Replace the final path component with `name`, keeping the class.
    pub fn with_file_name(&self, name: &str) -> (r: ValidPath)
        ensures
            r.spec_path() == spec_with_file_name(self.spec_path(), name@),
            (r is Full) == (self is Full),
            (r is Rel) == (self is Rel),
            (r is Name) == (self is Name),
    {
        match self {
            ValidPath::Full(p) => ValidPath::Full(p.with_file_name(name)),
            ValidPath::Rel(p) => ValidPath::Rel(p.with_file_name(name)),
            ValidPath::Name(p) => ValidPath::Name(p.with_file_name(name)),
        }
    }

    /// Replace the final component's extension with `ext`, keeping the
    /// class.
    pub fn with_extension(&self, ext: &str) -> (r: ValidPath)
        ensures
            r.spec_path() == spec_with_extension(self.spec_path(), ext@),
            (r is Full) == (self is Full),
            (r is Rel) == (self is Rel),
            (r is Name) == (self is Name),
    {
        match self {
            ValidPath::Full(p) => ValidPath::Full(p.with_extension(ext)),
            ValidPath::Rel(p) => ValidPath::Rel(p.with_extension(ext)),
            ValidPath::Name(p) => ValidPath::Name(p.with_extension(ext)),
        }
    }
}

} // verus!
