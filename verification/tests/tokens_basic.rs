use bstr::ByteSlice;
use logix_type::error::TokenError;
use logix_type::loader::CachedFile;
use logix_type::parser::LogixParser;
use logix_type::token::parse::{parse_token, ParseRes};
use logix_type::token::{Brace, Literal, StrLit, StrTag, Token};

#[test]
fn print_comment_token_type() {
    let token = Token::Comment(String::from("hello"));
    assert_eq!(token.token_type_name().to_string(), "comment");
    {
        let mut s = String::new();
        token.write_token_display_name(&mut s);
        assert_eq!(s, "comment");
    }
}

#[test]
fn print_number_token_type() {
    let token = Token::Literal(Literal::Num(String::from("10")));
    assert_eq!(token.token_type_name().to_string(), "number");
    {
        let mut s = String::new();
        token.write_token_display_name(&mut s);
        assert_eq!(s, "`10`");
    }
}

#[test]
fn print_str_token_type() {
    let token = Token::Literal(Literal::Str(StrLit::new(StrTag::Raw, String::from("aa"))));
    assert_eq!(token.token_type_name().to_string(), "string");
    {
        let mut s = String::new();
        token.write_token_display_name(&mut s);
        assert_eq!(s, "string");
    }
}

#[test]
fn print_brace_token_type() {
    let token = Token::Brace { start: true, brace: Brace::Curly };
    assert_eq!(token.token_type_name().to_string(), "`{`");
    {
        let mut s = String::new();
        token.write_token_display_name(&mut s);
        assert_eq!(s, "`{`");
    }
}

const REPLACEMENT_CHAR_BYTES: &[u8] = "\u{fffd}".as_bytes();

#[test]
fn bstr_assumptions() {

    assert_eq!(REPLACEMENT_CHAR_BYTES, b"\xef\xbf\xbd");

    assert_eq!(
        b"abc\x80\xef\xbf\xbd\xf0\x9f\x98"
            .as_bytes()
            .char_indices()
            .collect::<Vec<_>>(),
        vec![
            (0, 1, 'a'),
            (1, 2, 'b'),
            (2, 3, 'c'),
            (3, 4, char::REPLACEMENT_CHARACTER),
            (4, 7, char::REPLACEMENT_CHARACTER),
            (7, 10, char::REPLACEMENT_CHARACTER),
        ]
    );

    assert_eq!(
        REPLACEMENT_CHAR_BYTES.chars().collect::<Vec<_>>(),
        vec!['\u{fffd}']
    );
}

#[test]
fn parse_basics() {
    assert_eq!(
        parse_token(b"{"),
        ParseRes {
            len: 1,
            range: (0, 1),
            lines: 0,
            token: Ok(Token::Brace { start: true, brace: Brace::Curly }),
        }
    );
}

// The tokenizer reports a string body that is not UTF-8 with a range that
// points at the first invalid byte.
#[test]
fn lit_str_not_utf8_points_at_byte() {
    let res = parse_token(b"\"ab\x8ecd\"");
    assert_eq!(res.range, (3, 4));
    assert_eq!(res.token, Err(TokenError::LitStrNotUtf8));
}

// Token round-trip on concrete values: the bytes at an accepted token's
// range reproduce the token.
#[test]
fn token_round_trip_concrete() {
    let src = b"  Hello-w0rld rest";
    let res = parse_token(src);
    let (a, b) = res.range;
    match res.token {
        Ok(Token::Ident(name)) => {
            assert_eq!(name.as_bytes(), &src[a..b]);
            assert_eq!(name, "Hello-w0rld");
        }
        other => panic!("{other:?}"),
    }
    let src2 = b"-13.5_ rest";
    let res2 = parse_token(src2);
    let (a2, b2) = res2.range;
    match res2.token {
        Ok(Token::Literal(Literal::Num(digits))) => {
            assert_eq!(digits.as_bytes(), &src2[a2..b2]);
            assert_eq!(digits, "-13.5_");
        }
        other => panic!("{other:?}"),
    }
    let src3 = b"\"body\" tail";
    let res3 = parse_token(src3);
    let (a3, b3) = res3.range;
    match res3.token {
        Ok(Token::Literal(Literal::Str(lit))) => {
            assert_eq!(&src3[a3 + 1..b3 - 1], lit.value.as_bytes());
            assert_eq!(lit.tag, StrTag::Raw);
        }
        other => panic!("{other:?}"),
    }
}

// Newline idempotence: no two interior newlines in a row, and the
// end-of-file newline repeats at the same position.
#[test]
fn newline_idempotence() {
    let file = CachedFile::from_slice("test.logix", b"a\n\n\n\nb\n");
    let mut p = LogixParser::new(&file);
    let (_, t1) = p.next_token().unwrap();
    assert_eq!(t1, Token::Ident(String::from("a")));
    let (_, t2) = p.next_token().unwrap();
    assert_eq!(t2, Token::Newline(false));
    let (_, t3) = p.next_token().unwrap();
    assert_eq!(t3, Token::Ident(String::from("b")));
    let (_, t4) = p.next_token().unwrap();
    assert_eq!(t4, Token::Newline(true));
    let (s5, t5) = p.next_token().unwrap();
    assert_eq!(t5, Token::Newline(true));
    let (s6, t6) = p.next_token().unwrap();
    assert_eq!(t6, Token::Newline(true));
    assert_eq!(s5, s6);
}

// Fork transparency: peeking leaves the driver's state untouched.
#[test]
fn peek_is_transparent() {
    let file = CachedFile::from_slice("test.logix", b"Hello { world }");
    let mut p = LogixParser::new(&file);
    let before = p.state;
    let (_, peeked) = p.peek_token().unwrap();
    assert_eq!(before, p.state);
    let (_, taken) = p.next_token().unwrap();
    assert_eq!(peeked, taken);
    assert_ne!(before, p.state);
}

// The driver skips comments and hands out the surrounding tokens.
#[test]
fn comments_are_skipped() {
    let file = CachedFile::from_slice("test.logix", b"a // one\n/* two /* nested */ */ b");
    let mut p = LogixParser::new(&file);
    let (_, t1) = p.next_token().unwrap();
    assert_eq!(t1, Token::Ident(String::from("a")));
    let (_, t2) = p.next_token().unwrap();
    assert_eq!(t2, Token::Newline(false));
    let (_, t3) = p.next_token().unwrap();
    assert_eq!(t3, Token::Ident(String::from("b")));
}

#[test]
fn print_action_token_type() {
    let token = Token::Action(logix_type::token::Action::Include);
    assert_eq!(token.token_type_name().to_string(), "action");
    {
        let mut s = String::new();
        token.write_token_display_name(&mut s);
        assert_eq!(s, "`@include`");
    }
}
