//! Rendering errors for people: a one-line message for each error, and a
//! diagnostic report with source context, a line-number gutter and carets
//! under the offending region.

use crate::error::{
    EscStrError, FsError, IncludeError, ParseError, PathError, TokenError, Wanted, Warn,
};
use crate::paint::{blue_bold, blue_bold_of, bold, bold_of, red_bold, red_bold_of};
use crate::span::{spec_ln_width, SourceSpan};
use crate::text::{dec_string_usize, hex_string, push_str, spec_dec, spec_hex};
use crate::token::{spec_display_name, Token};
use vstd::prelude::*;
use vstd::string::{StrSliceExecFns, StringExecFns};

verus! {

/// What the standard debug form of a character looks like.
pub uninterp spec fn char_quoted_of(c: char) -> Seq<char>;

/// Relies on the standard debug formatting of char: printable ASCII other
/// than the quote and the backslash stays itself between single quotes.
#[verifier::external_body]
pub fn char_quoted(c: char) -> (r: String)
    ensures
        r@ == char_quoted_of(c),
        (32 <= (c as u32) && ((c as u32) < 127) && c != '\'' && c != '\\') ==> r@ == seq![
            '\'',
            c,
            '\'',
        ],
{
    format!("{c:?}")
}

/// `path:line:col` of a span.
pub open spec fn spec_span_text(s: &SourceSpan) -> Seq<char> {
    s.spec_path() + ":"@ + spec_dec(s.spec_line() as nat) + ":"@ + spec_dec(s.spec_col() as nat)
}

/// Render a span as `path:line:col`.
pub fn span_text(s: &SourceSpan) -> (r: String)
    ensures
        r@ == spec_span_text(s),
{
    let mut out = String::new();
    push_str(&mut out, s.path());
    push_str(&mut out, ":");
    let line = dec_string_usize(s.line());
    push_str(&mut out, line.as_str());
    push_str(&mut out, ":");
    let col = dec_string_usize(s.col());
    push_str(&mut out, col.as_str());
    proof {
        assert(out@ =~= spec_span_text(s));
    }
    out
}

impl TokenError {
    /// The message for this error.
    pub open spec fn spec_message(&self) -> Seq<char> {
        match self {
            TokenError::LitStrNotUtf8 => "invalid utf-8 sequence"@,
            TokenError::UnexpectedChar(c) => "unexpected character "@ + char_quoted_of(*c),
            TokenError::MissingCommentTerminator => "unexpected end of file, expected `*/`"@,
            TokenError::UnknownStrTag(t) => "unknown string tag `"@ + t@ + "`"@,
            TokenError::MissingStringTerminator => "unexpected end of the string, expected `\""@
                + "`"@,
            TokenError::MissingTaggedStringTerminator { tag, suffix } => "unexpected end of "@
                + tag.spec_display_name() + " string, expected `"@ + suffix@ + "`"@,
        }
    }

    /// Render the message.
    pub fn message(&self) -> (r: String)
        ensures
            r@ == self.spec_message(),
    {
        let mut out = String::new();
        match self {
            TokenError::LitStrNotUtf8 => {
                push_str(&mut out, "invalid utf-8 sequence");
            },
            TokenError::UnexpectedChar(c) => {
                push_str(&mut out, "unexpected character ");
                let q = char_quoted(*c);
                push_str(&mut out, q.as_str());
            },
            TokenError::MissingCommentTerminator => {
                push_str(&mut out, "unexpected end of file, expected `*/`");
            },
            TokenError::UnknownStrTag(t) => {
                push_str(&mut out, "unknown string tag `");
                push_str(&mut out, t.as_str());
                push_str(&mut out, "`");
            },
            TokenError::MissingStringTerminator => {
                push_str(&mut out, "unexpected end of the string, expected `\"");
                push_str(&mut out, "`");
            },
            TokenError::MissingTaggedStringTerminator { tag, suffix } => {
                push_str(&mut out, "unexpected end of ");
                push_str(&mut out, tag.display_name());
                push_str(&mut out, " string, expected `");
                push_str(&mut out, suffix.text.as_str());
                push_str(&mut out, "`");
            },
        }
        proof {
            assert(out@ =~= self.spec_message());
        }
        out
    }
}

impl EscStrError {
    /// The message for this error.
    pub open spec fn spec_message(&self) -> Seq<char> {
        match self {
            EscStrError::TruncatedHex => "got truncated hex escape code"@,
            EscStrError::InvalidHex => "got invalid hex escape code"@,
            EscStrError::InvalidUnicodeHex => "got invalid unicode hex escape code"@,
            EscStrError::InvalidUnicodePoint(v) => "the code point U+"@ + spec_hex(*v as nat)
                + " is invalid"@,
            EscStrError::InvalidUnicodeMissingStartBrace => "got invalid unicode escape, expected `{"@
                + "`"@,
            EscStrError::InvalidUnicodeMissingEndBrace => "got invalid unicode escape, expected `}"@
                + "`"@,
            EscStrError::InvalidEscapeChar(c) => "got invalid escape character "@
                + char_quoted_of(*c),
        }
    }

    /// Render the message.
    pub fn message(&self) -> (r: String)
        ensures
            r@ == self.spec_message(),
    {
        let mut out = String::new();
        match self {
            EscStrError::TruncatedHex => {
                push_str(&mut out, "got truncated hex escape code");
            },
            EscStrError::InvalidHex => {
                push_str(&mut out, "got invalid hex escape code");
            },
            EscStrError::InvalidUnicodeHex => {
                push_str(&mut out, "got invalid unicode hex escape code");
            },
            EscStrError::InvalidUnicodePoint(v) => {
                push_str(&mut out, "the code point U+");
                let h = hex_string(*v as u64);
                push_str(&mut out, h.as_str());
                push_str(&mut out, " is invalid");
            },
            EscStrError::InvalidUnicodeMissingStartBrace => {
                push_str(&mut out, "got invalid unicode escape, expected `{");
                push_str(&mut out, "`");
            },
            EscStrError::InvalidUnicodeMissingEndBrace => {
                push_str(&mut out, "got invalid unicode escape, expected `}");
                push_str(&mut out, "`");
            },
            EscStrError::InvalidEscapeChar(c) => {
                push_str(&mut out, "got invalid escape character ");
                let q = char_quoted(*c);
                push_str(&mut out, q.as_str());
            },
        }
        proof {
            assert(out@ =~= self.spec_message());
        }
        out
    }
}

impl PathError {
    /// The message for this error.
    pub open spec fn spec_message(&self) -> Seq<char> {
        match self {
            PathError::NotAbsolute => "expected an absolute path"@,
            PathError::NotRelative => "expected a relative path"@,
            PathError::EmptyPath => "the specified path is empty"@,
            PathError::NotName => "expected either a file or directory name"@,
            PathError::InvalidChar(c) => "the path contains the invalid character "@
                + char_quoted_of(*c),
            PathError::NotFullOrNameOnly => "expected file name or absolute path"@,
        }
    }

    /// Render the message.
    pub fn message(&self) -> (r: String)
        ensures
            r@ == self.spec_message(),
    {
        let mut out = String::new();
        match self {
            PathError::NotAbsolute => {
                push_str(&mut out, "expected an absolute path");
            },
            PathError::NotRelative => {
                push_str(&mut out, "expected a relative path");
            },
            PathError::EmptyPath => {
                push_str(&mut out, "the specified path is empty");
            },
            PathError::NotName => {
                push_str(&mut out, "expected either a file or directory name");
            },
            PathError::InvalidChar(c) => {
                push_str(&mut out, "the path contains the invalid character ");
                let q = char_quoted(*c);
                push_str(&mut out, q.as_str());
            },
            PathError::NotFullOrNameOnly => {
                push_str(&mut out, "expected file name or absolute path");
            },
        }
        proof {
            assert(out@ =~= self.spec_message());
        }
        out
    }
}

impl FsError {
    /// The message for this error.
    pub open spec fn spec_message(&self) -> Seq<char> {
        match self {
            FsError::NotFound { path } => "Failed to locate \""@ + path@ + "\""@,
            FsError::AccessDenied { path } => "Failed to access \""@ + path@ + "\""@,
            FsError::PathOutsideBounds { path } => "The path \""@ + path@
                + "\" is outside acceptable bounds"@,
            FsError::NotADirectory { path } => "The path \""@ + path@ + "\" is not a directory"@,
            FsError::Other(msg) => msg@,
        }
    }

    /// Render the message.
    pub fn message(&self) -> (r: String)
        ensures
            r@ == self.spec_message(),
    {
        let mut out = String::new();
        match self {
            FsError::NotFound { path } => {
                push_str(&mut out, "Failed to locate \"");
                push_str(&mut out, path.as_str());
                push_str(&mut out, "\"");
            },
            FsError::AccessDenied { path } => {
                push_str(&mut out, "Failed to access \"");
                push_str(&mut out, path.as_str());
                push_str(&mut out, "\"");
            },
            FsError::PathOutsideBounds { path } => {
                push_str(&mut out, "The path \"");
                push_str(&mut out, path.as_str());
                push_str(&mut out, "\" is outside acceptable bounds");
            },
            FsError::NotADirectory { path } => {
                push_str(&mut out, "The path \"");
                push_str(&mut out, path.as_str());
                push_str(&mut out, "\" is not a directory");
            },
            FsError::Other(msg) => {
                push_str(&mut out, msg.as_str());
            },
        }
        proof {
            assert(out@ =~= self.spec_message());
        }
        out
    }
}

impl IncludeError {
    /// The message for this error.
    pub open spec fn spec_message(&self) -> Seq<char> {
        match self {
            IncludeError::NotUtf8 => "invalid utf-8 sequence"@,
            IncludeError::Open(e) => e.spec_message(),
        }
    }

    /// Render the message.
    pub fn message(&self) -> (r: String)
        ensures
            r@ == self.spec_message(),
    {
        match self {
            IncludeError::NotUtf8 => {
                let mut out = String::new();
                push_str(&mut out, "invalid utf-8 sequence");
                proof {
                    assert(out@ =~= self.spec_message());
                }
                out
            },
            IncludeError::Open(e) => e.message(),
        }
    }
}

impl Wanted {
    /// The display form of what was wanted.
    pub open spec fn spec_message(&self) -> Seq<char> {
        match self {
            Wanted::Token(t) => spec_display_name(t@),
            Wanted::Tokens(ts) => spec_tokens_list(ts@),
            Wanted::LitStr => "string"@,
            Wanted::FullPath => "full path"@,
            Wanted::RelPath => "relative path"@,
            Wanted::ExecutablePath => "executable name or full path"@,
            Wanted::NameOnlyPath => "file or directory name"@,
            Wanted::ValidPath => "path"@,
            Wanted::LitNum(name) => name@,
            Wanted::Ident => "identifier"@,
            Wanted::Item => "item"@,
            Wanted::ItemDelim => "delimiter"@,
            Wanted::ItemOrEnd => "item or end"@,
        }
    }

    /// Render the display form: one or two alternatives read naturally,
    /// longer lists are comma-separated with a final `or`.
    pub fn message(&self) -> (r: String)
        ensures
            r@ == self.spec_message(),
    {
        let mut out = String::new();
        match self {
            Wanted::Token(t) => {
                t.write_token_display_name(&mut out);
            },
            Wanted::Tokens(ts) => {
                let n = ts.len();
                if n == 1 {
                    ts[0].write_token_display_name(&mut out);
                    proof {
                        assert(out@ =~= spec_tokens_list(ts@));
                    }
                } else if n == 2 {
                    push_str(&mut out, "either ");
                    ts[0].write_token_display_name(&mut out);
                    push_str(&mut out, " or ");
                    ts[1].write_token_display_name(&mut out);
                    proof {
                        assert(out@ =~= spec_tokens_list(ts@));
                    }
                } else if n >= 3 {
                    push_str(&mut out, "one of ");
                    ts[0].write_token_display_name(&mut out);
                    let mut i: usize = 1;
                    while i < n - 1
                        invariant
                            1 <= i <= n - 1,
                            n == ts@.len(),
                            n >= 3,
                            out@ == "one of "@ + spec_middle_list(ts@, i as int),
                        decreases n - i,
                    {
                        push_str(&mut out, ", ");
                        ts[i].write_token_display_name(&mut out);
                        i = i + 1;
                    }
                    push_str(&mut out, ", or ");
                    ts[n - 1].write_token_display_name(&mut out);
                    proof {
                        assert(out@ =~= spec_tokens_list(ts@));
                    }
                } else {
                    proof {
                        assert(out@ =~= spec_tokens_list(ts@));
                    }
                }
            },
            Wanted::LitStr => {
                push_str(&mut out, "string");
            },
            Wanted::FullPath => {
                push_str(&mut out, "full path");
            },
            Wanted::RelPath => {
                push_str(&mut out, "relative path");
            },
            Wanted::ExecutablePath => {
                push_str(&mut out, "executable name or full path");
            },
            Wanted::NameOnlyPath => {
                push_str(&mut out, "file or directory name");
            },
            Wanted::ValidPath => {
                push_str(&mut out, "path");
            },
            Wanted::LitNum(name) => {
                push_str(&mut out, name);
            },
            Wanted::Ident => {
                push_str(&mut out, "identifier");
            },
            Wanted::Item => {
                push_str(&mut out, "item");
            },
            Wanted::ItemDelim => {
                push_str(&mut out, "delimiter");
            },
            Wanted::ItemOrEnd => {
                push_str(&mut out, "item or end");
            },
        }
        proof {
            assert(out@ =~= self.spec_message());
        }
        out
    }
}

/// The display list of token alternatives: one stands alone, two get
/// `either`/`or`, more are comma-separated ending in `, or`.
pub open spec fn spec_tokens_list(ts: Seq<Token>) -> Seq<char> {
    if ts.len() == 1 {
        spec_display_name(ts[0]@)
    } else if ts.len() == 2 {
        "either "@ + spec_display_name(ts[0]@) + " or "@ + spec_display_name(ts[1]@)
    } else if ts.len() >= 3 {
        "one of "@ + spec_middle_list(ts, ts.len() - 1) + ", or "@ + spec_display_name(
            ts.last()@,
        )
    } else {
        Seq::empty()
    }
}

/// The first `k` display names, comma-separated.
pub open spec fn spec_middle_list(ts: Seq<Token>, k: int) -> Seq<char>
    decreases k,
{
    if k <= 1 {
        spec_display_name(ts[0]@)
    } else {
        spec_middle_list(ts, k - 1) + ", "@ + spec_display_name(ts[k - 1]@)
    }
}

/// `w` spaces.
pub open spec fn spec_spaces(w: int) -> Seq<char>
    decreases w,
{
    if w <= 0 {
        Seq::empty()
    } else {
        spec_spaces(w - 1).push(' ')
    }
}

/// Build `w` spaces.
pub fn spaces(w: usize) -> (r: String)
    ensures
        r@ == spec_spaces(w as int),
{
    let mut v: Vec<u8> = Vec::new();
    let mut i: usize = 0;
    proof {
        assert(crate::text::ascii_chars_of(v@) =~= spec_spaces(0));
    }
    while i < w
        invariant
            i <= w,
            crate::text::all_ascii(v@),
            crate::text::ascii_chars_of(v@) == spec_spaces(i as int),
        decreases w - i,
    {
        let ghost before = v@;
        v.push(32);
        proof {
            assert(crate::text::ascii_chars_of(v@) =~= crate::text::ascii_chars_of(before).push(
                ' ',
            ));
        }
        i = i + 1;
    }
    crate::text::ascii_to_string(v.as_slice())
}

/// `text` right-aligned in a field of `w` characters.
pub fn pad_left(text: &str, w: usize) -> (r: String)
    ensures
        text@.len() >= w ==> r@ == text@,
        text@.len() < w ==> r@ == spec_spaces(w - text@.len()) + text@,
{
    let n = text.unicode_len();
    let mut out = if n >= w {
        String::new()
    } else {
        spaces(w - n)
    };
    push_str(&mut out, text);
    proof {
        if text@.len() >= w {
            assert(out@ =~= text@);
        }
    }
    out
}

impl Warn {
    /// The message for this warning.
    pub open spec fn spec_message(&self) -> Seq<char> {
        match self {
            Warn::DuplicateMapEntry { span, key } => "Duplicate entry `"@ + key@
                + "` while parsing `Map`, overwrites the previous entry in "@ + spec_span_text(
                span,
            ),
        }
    }

    /// Render the message.
    pub fn message(&self) -> (r: String)
        ensures
            r@ == self.spec_message(),
    {
        let mut out = String::new();
        match self {
            Warn::DuplicateMapEntry { span, key } => {
                push_str(&mut out, "Duplicate entry `");
                push_str(&mut out, key.as_str());
                push_str(&mut out, "` while parsing `Map`, overwrites the previous entry in ");
                let st = span_text(span);
                push_str(&mut out, st.as_str());
            },
        }
        proof {
            assert(out@ =~= self.spec_message());
        }
        out
    }
}

impl ParseError {
    /// The one-line message for this error.
    pub open spec fn spec_message(&self) -> Seq<char> {
        match self {
            ParseError::FsError(e) => e.spec_message(),
            ParseError::Warning(w) => w.spec_message(),
            ParseError::MissingStructMember { span, type_label, member } =>
                "Missing struct member `"@ + member@ + "` while parsing `"@ + type_label@
                + "` in "@ + spec_span_text(span),
            ParseError::DuplicateStructMember { span, type_label, member } =>
                "Duplicate struct member `"@ + member@ + "` while parsing `"@ + type_label@
                + "` in "@ + spec_span_text(span),
            ParseError::UnexpectedToken { span, while_parsing, got_token, wanted } =>
                "Unexpected "@ + got_token@ + " while parsing `"@ + while_parsing@
                + "`, expected "@ + wanted.spec_message() + " in "@ + spec_span_text(span),
            ParseError::StrEscError { span, error } => "Failed to parse string, "@
                + error.spec_message() + " in "@ + spec_span_text(span),
            ParseError::TokenError { span, error } => "Failed to parse input, "@
                + error.spec_message() + " in "@ + spec_span_text(span),
            ParseError::IncludeError { span, while_parsing, error } =>
                "Failed to load included file as `"@ + while_parsing@ + "`, "@
                + error.spec_message() + " in "@ + spec_span_text(span),
            ParseError::PathError { span, error } => "Failed to parse path, "@
                + error.spec_message() + " in "@ + spec_span_text(span),
        }
    }

    /// Render the one-line message.
    pub fn message(&self) -> (r: String)
        ensures
            r@ == self.spec_message(),
    {
        let mut out = String::new();
        match self {
            ParseError::FsError(e) => {
                let m = e.message();
                push_str(&mut out, m.as_str());
            },
            ParseError::Warning(w) => {
                let m = w.message();
                push_str(&mut out, m.as_str());
            },
            ParseError::MissingStructMember { span, type_label, member } => {
                push_str(&mut out, "Missing struct member `");
                push_str(&mut out, member);
                push_str(&mut out, "` while parsing `");
                push_str(&mut out, type_label);
                push_str(&mut out, "` in ");
                let st = span_text(span);
                push_str(&mut out, st.as_str());
            },
            ParseError::DuplicateStructMember { span, type_label, member } => {
                push_str(&mut out, "Duplicate struct member `");
                push_str(&mut out, member);
                push_str(&mut out, "` while parsing `");
                push_str(&mut out, type_label);
                push_str(&mut out, "` in ");
                let st = span_text(span);
                push_str(&mut out, st.as_str());
            },
            ParseError::UnexpectedToken { span, while_parsing, got_token, wanted } => {
                push_str(&mut out, "Unexpected ");
                push_str(&mut out, got_token);
                push_str(&mut out, " while parsing `");
                push_str(&mut out, while_parsing);
                push_str(&mut out, "`, expected ");
                let wm = wanted.message();
                push_str(&mut out, wm.as_str());
                push_str(&mut out, " in ");
                let st = span_text(span);
                push_str(&mut out, st.as_str());
            },
            ParseError::StrEscError { span, error } => {
                push_str(&mut out, "Failed to parse string, ");
                let m = error.message();
                push_str(&mut out, m.as_str());
                push_str(&mut out, " in ");
                let st = span_text(span);
                push_str(&mut out, st.as_str());
            },
            ParseError::TokenError { span, error } => {
                push_str(&mut out, "Failed to parse input, ");
                let m = error.message();
                push_str(&mut out, m.as_str());
                push_str(&mut out, " in ");
                let st = span_text(span);
                push_str(&mut out, st.as_str());
            },
            ParseError::IncludeError { span, while_parsing, error } => {
                push_str(&mut out, "Failed to load included file as `");
                push_str(&mut out, while_parsing);
                push_str(&mut out, "`, ");
                let m = error.message();
                push_str(&mut out, m.as_str());
                push_str(&mut out, " in ");
                let st = span_text(span);
                push_str(&mut out, st.as_str());
            },
            ParseError::PathError { span, error } => {
                push_str(&mut out, "Failed to parse path, ");
                let m = error.message();
                push_str(&mut out, m.as_str());
                push_str(&mut out, " in ");
                let st = span_text(span);
                push_str(&mut out, st.as_str());
            },
        }
        proof {
            assert(out@ =~= self.spec_message());
        }
        out
    }
}

/// `a` begins with `b`.
pub open spec fn starts_with(a: Seq<char>, b: Seq<char>) -> bool {
    a.len() >= b.len() && a.subrange(0, b.len() as int) == b
}

/// Appending keeps a prefix a prefix.
proof fn lemma_starts_with_append(a: Seq<char>, b: Seq<char>, c: Seq<char>)
    requires
        starts_with(a, b),
    ensures
        starts_with(a + c, b),
{
    assert((a + c).subrange(0, b.len() as int) =~= a.subrange(0, b.len() as int));
}

/// The first lines of every rendered diagnostic: the styled `error:`
/// headline, the `--->` arrow with the span's position, and the empty
/// gutter row.
pub open spec fn spec_error_header(headline: Seq<char>, span: &SourceSpan, w: int) -> Seq<char> {
    red_bold_of("error: "@) + bold_of(headline) + "\n   "@ + blue_bold_of("--->"@) + " "@
        + spec_span_text(span) + "\n"@ + spec_spaces(w) + " "@ + blue_bold_of("|"@) + "\n"@
}

/// Append a full diagnostic to `out`: the header, then each source line
/// around the span with its gutter, and a caret row with `detail` under
/// the covered region.
pub fn write_error(out: &mut String, headline: &str, span: &SourceSpan, detail: &str)
    ensures
        starts_with(
            final(out)@,
            old(out)@ + spec_error_header(
                headline@,
                span,
                spec_ln_width(span.spec_last_line() + 1),
            ),
        ),
{
    let last_line = span.last_line();
    let ln_width: usize = if last_line < usize::MAX {
        span.calc_ln_width(1)
    } else {
        10
    };
    proof {
        assert(ln_width == spec_ln_width(span.spec_last_line() + 1));
    }
    let r1 = red_bold("error: ");
    push_str(out, r1.as_str());
    let b1 = bold(headline);
    push_str(out, b1.as_str());
    push_str(out, "
   ");
    let a1 = blue_bold("--->");
    push_str(out, a1.as_str());
    push_str(out, " ");
    let st = span_text(span);
    push_str(out, st.as_str());
    push_str(out, "
");
    let pad = spaces(ln_width);
    push_str(out, pad.as_str());
    push_str(out, " ");
    let bar = blue_bold("|");
    push_str(out, bar.as_str());
    push_str(out, "
");
    let ghost header_done = out@;
    proof {
        assert(header_done =~= old(out)@ + spec_error_header(
            headline@,
            span,
            ln_width as int,
        ));
        assert(starts_with(
            header_done,
            old(out)@ + spec_error_header(
                headline@,
                span,
                spec_ln_width(span.spec_last_line() + 1),
            ),
        )) by {
            assert(header_done.subrange(0, header_done.len() as int) =~= header_done);
        }
    }
    // The source rows: each line in the window, and a caret row under the
    // covered region.
    let rows = span.lines(1);
    let n = rows.len();
    let mut i: usize = 0;
    while i < n
        invariant
            i <= n,
            n == rows@.len(),
            forall|k: int| 0 <= k < rows@.len() ==> (#[trigger] rows@[k]).0 >= 1,
            starts_with(
                out@,
                old(out)@ + spec_error_header(
                    headline@,
                    span,
                    spec_ln_width(span.spec_last_line() + 1),
                ),
            ),
        decreases n - i,
    {
        let (ln, caret, text) = {
            let row = &rows[i];
            (row.0, row.1, row.2.clone())
        };
        let ghost out_before = out@;
        let mut line_out = String::new();
        let lns = dec_string_usize(ln);
        let g = pad_left(lns.as_str(), ln_width);
        let gb = blue_bold(g.as_str());
        push_str(&mut line_out, gb.as_str());
        push_str(&mut line_out, " ");
        let bar2 = blue_bold("|");
        push_str(&mut line_out, bar2.as_str());
        push_str(&mut line_out, " ");
        push_str(&mut line_out, text.as_str());
        push_str(&mut line_out, "\n");
        match caret {
            Some((cs, ce)) => {
                let pad2 = spaces(ln_width);
                push_str(&mut line_out, pad2.as_str());
                push_str(&mut line_out, " ");
                let bar3 = blue_bold("|");
                push_str(&mut line_out, bar3.as_str());
                push_str(&mut line_out, " ");
                let lead = spaces(cs);
                push_str(&mut line_out, lead.as_str());
                // How many characters the span covers on this line.
                let tb = text.as_str().as_bytes();
                let count: usize = if cs < tb.len() {
                    let ce2 = if ce > tb.len() {
                        tb.len()
                    } else {
                        ce
                    };
                    if ce2 > cs {
                        let piece = crate::text::lossy_to_string(
                            vstd::slice::slice_subrange(tb, cs, ce2),
                        );
                        let c = piece.as_str().unicode_len();
                        if c == 0 {
                            1
                        } else {
                            c
                        }
                    } else {
                        1
                    }
                } else {
                    1
                };
                let mut carets: Vec<u8> = Vec::new();
                let mut q: usize = 0;
                while q < count
                    invariant
                        q <= count,
                        crate::text::all_ascii(carets@),
                    decreases count - q,
                {
                    carets.push(94);
                    q = q + 1;
                }
                let ctext = crate::text::ascii_to_string(carets.as_slice());
                let cred = red_bold(ctext.as_str());
                push_str(&mut line_out, cred.as_str());
                push_str(&mut line_out, " ");
                let dred = red_bold(detail);
                push_str(&mut line_out, dred.as_str());
                push_str(&mut line_out, "\n");
            },
            None => {},
        }
        push_str(out, line_out.as_str());
        proof {
            lemma_starts_with_append(
                out_before,
                old(out)@ + spec_error_header(
                    headline@,
                    span,
                    spec_ln_width(span.spec_last_line() + 1),
                ),
                line_out@,
            );
        }
        i = i + 1;
    }
}

impl ParseError {
    /// Render the full diagnostic, as the terminal shows it: a leading
    /// blank line, the headline, the arrow to the span, and the source
    /// context with carets.
    pub fn report(&self) -> (r: String)
        ensures
            starts_with(r@, "\n"@),
    {
        let mut out = String::new();
        push_str(&mut out, "
");
        match self {
            ParseError::FsError(e) => {
                let r1 = red_bold("error: ");
                push_str(&mut out, r1.as_str());
                let m = e.message();
                let b = bold(m.as_str());
                push_str(&mut out, b.as_str());
                push_str(&mut out, "
");
            },
            ParseError::Warning(Warn::DuplicateMapEntry { span, key }) => {
                let mut headline = String::new();
                push_str(&mut headline, "Duplicate entry `");
                push_str(&mut headline, key.as_str());
                push_str(&mut headline, "` while parsing `Map`");
                write_error(&mut out, headline.as_str(), span, "overwrites the previous entry");
            },
            ParseError::MissingStructMember { span, type_label, member } => {
                let mut headline = String::new();
                push_str(&mut headline, "Missing struct member while parsing `");
                push_str(&mut headline, type_label);
                push_str(&mut headline, "`");
                let mut detail = String::new();
                push_str(&mut detail, "expected `");
                push_str(&mut detail, member);
                push_str(&mut detail, "`");
                write_error(&mut out, headline.as_str(), span, detail.as_str());
            },
            ParseError::DuplicateStructMember { span, type_label, member } => {
                let mut headline = String::new();
                push_str(&mut headline, "Duplicate struct member while parsing `");
                push_str(&mut headline, type_label);
                push_str(&mut headline, "`");
                let mut detail = String::new();
                push_str(&mut detail, "unexpected `");
                push_str(&mut detail, member);
                push_str(&mut detail, "`");
                write_error(&mut out, headline.as_str(), span, detail.as_str());
            },
            ParseError::UnexpectedToken { span, while_parsing, got_token, wanted } => {
                let mut headline = String::new();
                push_str(&mut headline, "Unexpected ");
                push_str(&mut headline, got_token);
                push_str(&mut headline, " while parsing `");
                push_str(&mut headline, while_parsing);
                push_str(&mut headline, "`");
                let mut detail = String::new();
                push_str(&mut detail, "expected ");
                let wm = wanted.message();
                push_str(&mut detail, wm.as_str());
                write_error(&mut out, headline.as_str(), span, detail.as_str());
            },
            ParseError::StrEscError { span, error } => {
                let m = error.message();
                write_error(&mut out, "Failed to parse escaped string", span, m.as_str());
            },
            ParseError::TokenError { span, error } => {
                let m = error.message();
                write_error(&mut out, "Failed to parse input", span, m.as_str());
            },
            ParseError::IncludeError { span, while_parsing, error } => {
                let mut headline = String::new();
                push_str(&mut headline, "Failed to load included file as `");
                push_str(&mut headline, while_parsing);
                push_str(&mut headline, "`");
                let m = error.message();
                write_error(&mut out, headline.as_str(), span, m.as_str());
            },
            ParseError::PathError { span, error } => {
                let m = error.message();
                write_error(&mut out, "Failed to parse path", span, m.as_str());
            },
        }
        proof {
            assert(starts_with(out@, "\n"@)) by {
                reveal_strlit("\n");
                assert(out@.subrange(0, 1) =~= "\n"@);
            }
        }
        out
    }
}

} // verus!
