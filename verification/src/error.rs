//! The error model: every way a parse can fail, with the span it points at.

pub use crate::span::SourceSpan;
use crate::token::{StrTag, StrTagSuffix, Token};
use crate::types::string::ShortStr;
use vstd::prelude::*;

verus! {

/// Errors found while classifying bytes into tokens.
#[derive(Debug, PartialEq, Eq)]
pub enum TokenError {
    /// A string literal's body is not valid UTF-8.
    LitStrNotUtf8,
    /// A byte that no classification rule accepts.
    UnexpectedChar(char),
    /// A block comment was still open at the end of the file.
    MissingCommentTerminator,
    /// A tagged string used a tag other than `raw`, `esc` or `txt`.
    UnknownStrTag(ShortStr),
    /// A basic string was still open at a newline or the end of the file.
    MissingStringTerminator,
    /// A tagged string's terminator did not appear before the end of the file.
    MissingTaggedStringTerminator { tag: StrTag, suffix: StrTagSuffix },
}

/// The ghost value of a token-level error.
pub ghost enum TokenErrorView {
    LitStrNotUtf8,
    UnexpectedChar(char),
    MissingCommentTerminator,
    UnknownStrTag(Seq<char>),
    MissingStringTerminator,
    MissingTaggedStringTerminator { tag: StrTag, suffix: Seq<char> },
}

impl View for TokenError {
    type V = TokenErrorView;

    open spec fn view(&self) -> TokenErrorView {
        match self {
            TokenError::LitStrNotUtf8 => TokenErrorView::LitStrNotUtf8,
            TokenError::UnexpectedChar(c) => TokenErrorView::UnexpectedChar(*c),
            TokenError::MissingCommentTerminator => TokenErrorView::MissingCommentTerminator,
            TokenError::UnknownStrTag(t) => TokenErrorView::UnknownStrTag(t@),
            TokenError::MissingStringTerminator => TokenErrorView::MissingStringTerminator,
            TokenError::MissingTaggedStringTerminator { tag, suffix } =>
                TokenErrorView::MissingTaggedStringTerminator { tag: *tag, suffix: suffix@ },
        }
    }
}

/// Errors found while expanding backslash escapes in a string body.
#[derive(Debug, PartialEq, Eq, Structural, Clone, Copy)]
pub enum EscStrError {
    /// Fewer than two hex digits after `\x`.
    TruncatedHex,
    /// Non-hex digits after `\x`.
    InvalidHex,
    /// Empty or non-hex digits inside `\u{...}`.
    InvalidUnicodeHex,
    /// A code point that is not a Unicode scalar value.
    InvalidUnicodePoint(u32),
    /// `\u` not followed by `{`.
    InvalidUnicodeMissingStartBrace,
    /// No closing `}` within a unicode escape.
    InvalidUnicodeMissingEndBrace,
    /// Any other letter after a backslash.
    InvalidEscapeChar(char),
}

/// Errors found while validating a path-like value.
#[derive(Debug, PartialEq, Eq, Structural, Clone, Copy)]
pub enum PathError {
    /// An absolute path was expected.
    NotAbsolute,
    /// A relative path was expected.
    NotRelative,
    /// The path is empty.
    EmptyPath,
    /// A single file or directory name was expected.
    NotName,
    /// The path holds a character paths may not contain.
    InvalidChar(char),
    /// A file name or an absolute path was expected.
    NotFullOrNameOnly,
}

/// A filesystem error reported by the file loader.
#[derive(Debug, PartialEq, Eq)]
pub enum FsError {
    NotFound { path: String },
    AccessDenied { path: String },
    PathOutsideBounds { path: String },
    NotADirectory { path: String },
    Other(String),
}

/// Errors raised while resolving a file-inclusion action.
#[derive(Debug, PartialEq, Eq)]
pub enum IncludeError {
    /// The referenced file is not valid UTF-8.
    NotUtf8,
    /// The referenced file could not be opened.
    Open(FsError),
}

/// What the parser wanted when it found something else.
#[derive(Debug, PartialEq, Eq)]
pub enum Wanted {
    Token(Token),
    Tokens(Vec<Token>),
    LitStr,
    FullPath,
    RelPath,
    ExecutablePath,
    NameOnlyPath,
    ValidPath,
    LitNum(&'static str),
    Ident,
    Item,
    ItemDelim,
    ItemOrEnd,
}

/// A warning; warnings are currently promoted to errors, but keep their own
/// shape so a later switch can demote them without reshaping the taxonomy.
#[derive(Debug, PartialEq, Eq)]
pub enum Warn {
    DuplicateMapEntry { span: SourceSpan, key: ShortStr },
}

/// Everything that can go wrong while parsing a config file.
#[derive(Debug, PartialEq, Eq)]
pub enum ParseError {
    FsError(FsError),
    Warning(Warn),
    MissingStructMember { span: SourceSpan, type_label: &'static str, member: &'static str },
    DuplicateStructMember { span: SourceSpan, type_label: &'static str, member: &'static str },
    UnexpectedToken {
        span: SourceSpan,
        while_parsing: &'static str,
        got_token: &'static str,
        wanted: Wanted,
    },
    StrEscError { span: SourceSpan, error: EscStrError },
    TokenError { span: SourceSpan, error: TokenError },
    IncludeError { span: SourceSpan, while_parsing: &'static str, error: IncludeError },
    PathError { span: SourceSpan, error: PathError },
}

impl ParseError {
    /// The span the error points at, where it carries one.
    pub open spec fn spec_span(&self) -> Option<SourceSpan> {
        match self {
            ParseError::FsError(_) => None,
            ParseError::Warning(Warn::DuplicateMapEntry { span, .. }) => Some(*span),
            ParseError::MissingStructMember { span, .. } => Some(*span),
            ParseError::DuplicateStructMember { span, .. } => Some(*span),
            ParseError::UnexpectedToken { span, .. } => Some(*span),
            ParseError::StrEscError { span, .. } => Some(*span),
            ParseError::TokenError { span, .. } => Some(*span),
            ParseError::IncludeError { span, .. } => Some(*span),
            ParseError::PathError { span, .. } => Some(*span),
        }
    }
}

} // verus!
