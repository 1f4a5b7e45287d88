//! The `Token` type and the other values the tokenizer hands out.
//!
//! Tokens own their text: identifier, number and string bodies are copied
//! out of the file buffer.  Every token form has a ghost view so contracts
//! can speak about token values as plain mathematical data.

pub mod comment;
pub mod esc;
pub mod parse;
pub mod rules;
pub mod str_lit;
pub mod string;
pub mod txt;

use crate::text::{ascii_chars_of, ascii_to_string, push_str};
use vstd::prelude::*;

verus! {

/// The four kinds of brackets the config language distinguishes.
#[derive(Debug, PartialEq, Eq, Structural, Clone, Copy)]
pub enum Brace {
    /// Curly braces `{}`
    Curly,
    /// Parenthesis `()`
    Paren,
    /// Square brackets `[]`
    Square,
    /// Angle brackets `<>`
    Angle,
}

impl Brace {
    /// The byte that opens (`start` true) or closes this bracket kind.
    pub open spec fn spec_byte(&self, start: bool) -> u8 {
        match (start, self) {
            (true, Brace::Curly) => 123,
            (false, Brace::Curly) => 125,
            (true, Brace::Paren) => 40,
            (false, Brace::Paren) => 41,
            (true, Brace::Square) => 91,
            (false, Brace::Square) => 93,
            (true, Brace::Angle) => 60,
            (false, Brace::Angle) => 62,
        }
    }
}

/// How a string literal's body is to be decoded.
#[derive(Debug, PartialEq, Eq, Structural, Clone, Copy)]
pub enum StrTag {
    /// The string can be used as is, no pre-processing needed.
    Raw,
    /// The string contains basic backslash-escaped data.
    Esc,
    /// The string is in nicely wrapped multi-line format: common leading
    /// whitespace is removed, ends are trimmed, and blank lines separate
    /// paragraphs.
    Txt,
}

impl StrTag {
    /// The display form of the tag: `` `#raw` `` and friends.
    pub fn display_name(&self) -> (r: &'static str)
        ensures
            r@ == self.spec_display_name(),
    {
        match self {
            StrTag::Raw => "`#raw`",
            StrTag::Esc => "`#esc`",
            StrTag::Txt => "`#txt`",
        }
    }

    pub open spec fn spec_display_name(&self) -> Seq<char> {
        match self {
            StrTag::Raw => "`#raw`"@,
            StrTag::Esc => "`#esc`"@,
            StrTag::Txt => "`#txt`"@,
        }
    }
}

/// The terminator of a tagged string: a double quote followed by as many
/// `#` bytes as opened the literal.
#[derive(Debug, PartialEq, Eq)]
pub struct StrTagSuffix {
    pub text: String,
}

/// The characters of the terminator for `hashes` opening hashes.
pub open spec fn spec_suffix_chars(hashes: int) -> Seq<char> {
    Seq::new((hashes + 1) as nat, |i: int| if i == 0 {
        '"'
    } else {
        '#'
    })
}

/// The bytes of the terminator for `hashes` opening hashes.
pub open spec fn spec_suffix_bytes(hashes: int) -> Seq<u8> {
    Seq::new((hashes + 1) as nat, |i: int| if i == 0 {
        34u8
    } else {
        35u8
    })
}

impl StrTagSuffix {
    pub open spec fn view(&self) -> Seq<char> {
        self.text@
    }

    /// Build the terminator for `num_hashes` opening hashes.
    pub fn new(num_hashes: usize) -> (r: StrTagSuffix)
        requires
            num_hashes < usize::MAX,
        ensures
            r@ == spec_suffix_chars(num_hashes as int),
    {
        let mut v: Vec<u8> = Vec::new();
        v.push(34);
        let mut i: usize = 0;
        while i < num_hashes
            invariant
                i <= num_hashes < usize::MAX,
                v@.len() == i + 1,
                v@ =~= spec_suffix_bytes(num_hashes as int).subrange(0, i + 1),
            decreases num_hashes - i,
        {
            v.push(35);
            i = i + 1;
        }
        proof {
            assert(v@ =~= spec_suffix_bytes(num_hashes as int));
            assert(ascii_chars_of(spec_suffix_bytes(num_hashes as int)) =~= spec_suffix_chars(
                num_hashes as int,
            ));
        }
        let text = ascii_to_string(v.as_slice());
        StrTagSuffix { text }
    }

    /// Length in bytes of the terminator.
    pub fn len(&self) -> (r: usize)
        ensures
            r == self@.len(),
    {
        self.text.as_str().unicode_len()
    }
}

/// A string literal: its tag and its raw (not yet decoded) body.
#[derive(Debug, PartialEq, Eq)]
pub struct StrLit {
    pub tag: StrTag,
    pub value: String,
}

/// The ghost value of a string literal.
pub ghost struct StrLitView {
    pub tag: StrTag,
    pub value: Seq<char>,
}

impl View for StrLit {
    type V = StrLitView;

    open spec fn view(&self) -> StrLitView {
        StrLitView { tag: self.tag, value: self.value@ }
    }
}

/// The delimiters between members and items.
#[derive(Debug, PartialEq, Eq, Structural, Clone, Copy)]
pub enum Delim {
    Colon,
    Comma,
}

/// A literal value: a string or an uninterpreted number.
#[derive(Debug, PartialEq, Eq)]
pub enum Literal {
    Str(StrLit),
    Num(String),
}

/// Action markers of the config language.
#[derive(Debug, PartialEq, Eq, Structural, Clone, Copy)]
pub enum Action {
    Include,
}

/// One lexical unit of the config language.
#[derive(Debug, PartialEq, Eq)]
pub enum Token {
    Ident(String),
    Action(Action),
    Literal(Literal),
    Brace { start: bool, brace: Brace },
    Delim(Delim),
    Comment(String),
    /// A newline; the argument is true when it is the last one (end of file).
    Newline(bool),
}

/// The ghost value of a token.
pub ghost enum TokenView {
    Ident(Seq<char>),
    Action(Action),
    LitStr(StrLitView),
    LitNum(Seq<char>),
    Brace { start: bool, brace: Brace },
    Delim(Delim),
    Comment(Seq<char>),
    Newline(bool),
}

impl View for Token {
    type V = TokenView;

    open spec fn view(&self) -> TokenView {
        match self {
            Token::Ident(s) => TokenView::Ident(s@),
            Token::Action(a) => TokenView::Action(*a),
            Token::Literal(Literal::Str(l)) => TokenView::LitStr(l@),
            Token::Literal(Literal::Num(n)) => TokenView::LitNum(n@),
            Token::Brace { start, brace } => TokenView::Brace { start: *start, brace: *brace },
            Token::Delim(d) => TokenView::Delim(*d),
            Token::Comment(c) => TokenView::Comment(c@),
            Token::Newline(b) => TokenView::Newline(*b),
        }
    }
}

/// The descriptive name of each token form, as it appears in diagnostics.
pub open spec fn spec_type_name(t: TokenView) -> Seq<char> {
    match t {
        TokenView::Ident(_) => "identifier"@,
        TokenView::Action(_) => "action"@,
        TokenView::LitStr(_) => "string"@,
        TokenView::LitNum(_) => "number"@,
        TokenView::Brace { start, brace } => match (start, brace) {
            (true, Brace::Paren) => "`(`"@,
            (false, Brace::Paren) => "`)`"@,
            (true, Brace::Curly) => "`{`"@,
            (false, Brace::Curly) => "`}`"@,
            (true, Brace::Square) => "`[`"@,
            (false, Brace::Square) => "`]`"@,
            (true, Brace::Angle) => "`<`"@,
            (false, Brace::Angle) => "`>`"@,
        },
        TokenView::Delim(Delim::Comma) => "`,`"@,
        TokenView::Delim(Delim::Colon) => "`:`"@,
        TokenView::Newline(false) => "newline"@,
        TokenView::Newline(true) => "end of file"@,
        TokenView::Comment(_) => "comment"@,
    }
}

/// The display form of a token: identifiers and numbers show their text in
/// backticks, the other forms show their type name.
pub open spec fn spec_display_name(t: TokenView) -> Seq<char> {
    match t {
        TokenView::Ident(value) => "`"@ + value + "`"@,
        TokenView::LitNum(num) => "`"@ + num + "`"@,
        TokenView::Action(Action::Include) => "`@include`"@,
        _ => spec_type_name(t),
    }
}

impl Token {
    /// The descriptive name of this token's form.
    pub fn token_type_name(&self) -> (r: &'static str)
        ensures
            r@ == spec_type_name(self@),
    {
        match self {
            Token::Ident(_) => "identifier",
            Token::Action(_) => "action",
            Token::Literal(Literal::Str(..)) => "string",
            Token::Literal(Literal::Num(..)) => "number",
            Token::Brace { start: true, brace: Brace::Paren } => "`(`",
            Token::Brace { start: false, brace: Brace::Paren } => "`)`",
            Token::Brace { start: true, brace: Brace::Curly } => "`{`",
            Token::Brace { start: false, brace: Brace::Curly } => "`}`",
            Token::Brace { start: true, brace: Brace::Square } => "`[`",
            Token::Brace { start: false, brace: Brace::Square } => "`]`",
            Token::Brace { start: true, brace: Brace::Angle } => "`<`",
            Token::Brace { start: false, brace: Brace::Angle } => "`>`",
            Token::Delim(Delim::Comma) => "`,`",
            Token::Delim(Delim::Colon) => "`:`",
            Token::Newline(false) => "newline",
            Token::Newline(true) => "end of file",
            Token::Comment(..) => "comment",
        }
    }

    /// Append this token's display form to `out`.
    pub fn write_token_display_name(&self, out: &mut String)
        ensures
            final(out)@ == old(out)@ + spec_display_name(self@),
    {
        match self {
            Token::Ident(value) => {
                push_str(out, "`");
                push_str(out, value.as_str());
                push_str(out, "`");
            },
            Token::Literal(Literal::Num(num)) => {
                push_str(out, "`");
                push_str(out, num.as_str());
                push_str(out, "`");
            },
            Token::Action(Action::Include) => {
                push_str(out, "`@include`");
            },
            _ => {
                push_str(out, self.token_type_name());
            },
        }
    }

    /// The display form of this token as a fresh string.
    pub fn display_name(&self) -> (r: String)
        ensures
            r@ == spec_display_name(self@),
    {
        let mut s = String::new();
        self.write_token_display_name(&mut s);
        proof {
            assert(Seq::<char>::empty() + spec_display_name(self@) =~= spec_display_name(self@));
        }
        s
    }

    /// Deep equality of two tokens.
    pub fn same_token(&self, other: &Token) -> (r: bool)
        ensures
            r == (self@ == other@),
    {
        match (self, other) {
            (Token::Ident(a), Token::Ident(b)) => crate::text::str_eq(a.as_str(), b.as_str()),
            (Token::Action(Action::Include), Token::Action(Action::Include)) => true,
            (Token::Literal(Literal::Str(a)), Token::Literal(Literal::Str(b))) => {
                let tag_eq = match (a.tag, b.tag) {
                    (StrTag::Raw, StrTag::Raw) => true,
                    (StrTag::Esc, StrTag::Esc) => true,
                    (StrTag::Txt, StrTag::Txt) => true,
                    _ => false,
                };
                tag_eq && crate::text::str_eq(a.value.as_str(), b.value.as_str())
            },
            (Token::Literal(Literal::Num(a)), Token::Literal(Literal::Num(b))) => crate::text::str_eq(
                a.as_str(),
                b.as_str(),
            ),
            (Token::Brace { start: a, brace: ab }, Token::Brace { start: b, brace: bb }) => a == b
                && ab == bb,
            (Token::Delim(a), Token::Delim(b)) => a == b,
            (Token::Comment(a), Token::Comment(b)) => crate::text::str_eq(a.as_str(), b.as_str()),
            (Token::Newline(a), Token::Newline(b)) => a == b,
            _ => false,
        }
    }
}

} // verus!
