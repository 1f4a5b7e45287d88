use logix_type::StrTagSuffix;
use logix_type::error::TokenError;
use logix_type::error::Warn;
use logix_type::error::{ParseError, SourceSpan, Wanted};
use logix_type::loader::{CachedFile, LogixLoader};
use logix_type::parser::LogixParser;
use logix_type::schema::{
    missing_member_error, next_struct_key, req_struct_header, StructKey,
};
use logix_type::token::Token;
use logix_type::type_trait::{
    LogixType, LogixTypeDescriptor, LogixValueDescriptor, Value,
};
use logix_type::types::map::LogixMap;

#[derive(Debug, PartialEq)]
struct Struct {
    aaa: u32,
    bbbb: String,
}

impl LogixType for Struct {
    fn descriptor() -> LogixTypeDescriptor {
        LogixTypeDescriptor {
            name: "Struct",
            doc: "",
            value: LogixValueDescriptor::Struct {
                members: vec![
                    ("aaa", u32::descriptor()),
                    ("bbbb", String::descriptor()),
                ],
            },
        }
    }

    fn default_value() -> Option<Self> {
        None
    }

    fn logix_parse(p: &mut LogixParser) -> Result<Value<Self>, ParseError> {
        let members: Vec<&'static str> = vec!["aaa", "bbbb"];
        let mut aaa: Option<Value<u32>> = None;
        let mut bbbb: Option<Value<String>> = None;
        let open = req_struct_header(p, "Struct", true)?;
        let end = loop {
            let seen: Vec<bool> = vec![aaa.is_some(), bbbb.is_some()];
            match next_struct_key(p, "Struct", &members, &seen)? {
                StructKey::Member(0, _) => {
                    aaa = Some(u32::logix_parse(p)?);
                    p.req_newline("Struct")?;
                }
                StructKey::Member(_, _) => {
                    bbbb = Some(String::logix_parse(p)?);
                    p.req_newline("Struct")?;
                }
                StructKey::End(span) => break span,
            }
        };
        let aaa = match aaa {
            Some(v) => v.value,
            None => return Err(missing_member_error(&end, "Struct", "aaa")),
        };
        let bbbb = match bbbb {
            Some(v) => v.value,
            None => return Err(missing_member_error(&end, "Struct", "bbbb")),
        };
        Ok(Value { value: Struct { aaa, bbbb }, span: open })
    }
}

struct Loader {
    loader: Option<LogixLoader>,
}

impl Loader {
    fn init() -> Self {
        Loader { loader: Some(LogixLoader::in_memory()) }
    }

    fn with_file(mut self, path: &str, data: &[u8]) -> Self {
        self.loader = Some(self.loader.take().unwrap().with_file(path, data));
        self
    }

    fn file(&self, path: &str) -> CachedFile {
        self.loader.as_ref().unwrap().get_file(path).unwrap()
    }

    fn span(&self, path: &str, line: usize, col: usize, len: usize) -> SourceSpan {
        SourceSpan::new_for_test(&self.file(path), line, col, len)
    }

    fn parse_file<T: LogixType + std::fmt::Debug>(&mut self, name: &str) -> ParseError {
        let (loader, r) = self.loader.take().unwrap().load_file::<T>(name);
        self.loader = Some(loader);
        r.unwrap_err()
    }

    fn parse_struct(&mut self, name: &str) -> ParseError {
        self.parse_file::<Struct>(name)
    }
}

fn debval(e: &ParseError) -> String {
    strip_ansi_escapes::strip_str(e.report())
}

fn disval(e: &ParseError) -> String {
    strip_ansi_escapes::strip_str(e.message())
}

fn stray_token(token: &str, token_str: &'static str) {
    stray_token_after_struct(token, token_str);
    stray_token_in_map("", token, token_str, Wanted::Ident, "identifier");
    stray_token_in_map(
        "  bb: 10 ",
        token,
        token_str,
        Wanted::Token(Token::Newline(false)),
        "newline",
    );
}

fn stray_token_after_struct(token: &str, token_str: &'static str) {
    let mut l = Loader::init().with_file(
        "test.logix",
        format!("Struct {{\n  aaa: 10\n  bbbb: \"hola\"\n}}\n\n{token}").as_bytes(),
    );
    let e = l.parse_struct("test.logix");

    assert_eq!(
        e,
        ParseError::UnexpectedToken {
            span: l.span("test.logix", 6, 0, token.len()),
            while_parsing: "Struct",
            wanted: Wanted::Token(Token::Newline(true)),
            got_token: token_str,
        }
    );

    assert_eq!(
        debval(&e),
        [
            format!("\n"),
            format!("error: Unexpected {token_str} while parsing `Struct`\n"),
            format!("   ---> test.logix:6:0\n"),
            format!("    |\n"),
            format!("  5 | \n"),
            format!("  6 | {token}\n"),
            format!("    | {} expected end of file\n", "^".repeat(token.len())),
        ]
        .into_iter()
        .collect::<String>(),
    );

    assert_eq!(
        disval(&e),
        format!(
            "Unexpected {token_str} while parsing `Struct`, expected end of file in test.logix:6:0"
        )
    );
}

fn stray_token_in_map(
    prefix: &str,
    token: &str,
    token_str: &'static str,
    wanted: Wanted,
    wanted_str: &str,
) {
    if token == "}" {
        return;
    }

    let mut l = Loader::init().with_file(
        "test.logix",
        format!("{{\n  aaa: 10\n{prefix}{token}}}\n").as_bytes(),
    );
    let e = l.parse_file::<LogixMap<i32>>("test.logix");
    let prefix_len = prefix.len();

    assert_eq!(
        e,
        ParseError::UnexpectedToken {
            span: l.span("test.logix", 3, prefix_len, token.len()),
            while_parsing: "map",
            wanted,
            got_token: token_str,
        }
    );

    assert_eq!(
        debval(&e),
        [
            format!("\n"),
            format!("error: Unexpected {token_str} while parsing `map`\n"),
            format!("   ---> test.logix:3:{prefix_len}\n"),
            format!("    |\n"),
            format!("  2 |   aaa: 10\n"),
            format!("  3 | {prefix}{token}}}\n"),
            format!(
                "    | {:prefix_len$}{} expected {wanted_str}\n",
                "",
                "^".repeat(token.len())
            ),
        ]
        .into_iter()
        .collect::<String>(),
    );

    assert_eq!(
        disval(&e),
        format!(
            "Unexpected {token_str} while parsing `map`, expected {wanted_str} in test.logix:3:{prefix_len}"
        )
    );
}

#[test]
fn stray_curly_brace() {
    stray_token("{", "`{`");
    stray_token("}", "`}`");
}

#[test]
fn stray_parens() {
    stray_token("(", "`(`");
    stray_token(")", "`)`");
}

#[test]
fn stray_square_brackets() {
    stray_token("[", "`[`");
    stray_token("]", "`]`");
}

#[test]
fn stray_angle_brackets() {
    stray_token("<", "`<`");
    stray_token(">", "`>`");
}

#[test]
fn stray_delims() {
    stray_token(":", "`:`");
    stray_token(",", "`,`");
}

#[test]
fn stray_string() {
    stray_token("\"hello\"", "string");
}

#[test]
fn stray_number() {
    stray_token("1337", "number");
    stray_token("133_7", "number");
    stray_token("-1337", "number");
    stray_token("-13_37", "number");
}

#[test]
fn empty_file() {
    let mut l = Loader::init().with_file("test.logix", b"");
    let e = l.parse_struct("test.logix");
    assert_eq!(
        e,
        ParseError::UnexpectedToken {
            span: l.span("test.logix", 1, 0, 0),
            while_parsing: "Struct",
            wanted: Wanted::Token(Token::Ident(String::from("Struct"))),
            got_token: "end of file",
        }
    );
    assert!(debval(&e).starts_with(
        "\nerror: Unexpected end of file while parsing `Struct`\n   ---> test.logix:1:0\n    |\n"
    ));
}

#[test]
fn no_newline() {
    let mut l = Loader::init().with_file("test.logix", b"Struct {}");
    let e = l.parse_struct("test.logix");
    assert_eq!(
        e,
        ParseError::UnexpectedToken {
            span: l.span("test.logix", 1, 8, 1),
            while_parsing: "Struct",
            wanted: Wanted::Token(Token::Newline(false)),
            got_token: "`}`",
        }
    );
    assert_eq!(
        disval(&e),
        "Unexpected `}` while parsing `Struct`, expected newline in test.logix:1:8"
    );
}

#[test]
fn no_members() {
    let mut l = Loader::init().with_file("test.logix", b"Struct {\n}");
    let e = l.parse_struct("test.logix");
    assert_eq!(
        e,
        ParseError::MissingStructMember {
            span: l.span("test.logix", 2, 0, 1),
            type_label: "Struct",
            member: "aaa",
        }
    );
    assert_eq!(
        disval(&e),
        "Missing struct member `aaa` while parsing `Struct` in test.logix:2:0"
    );
}

#[test]
fn one_member_a() {
    let mut l = Loader::init().with_file("test.logix", b"Struct {\n  aaa: 10\n}");
    let e = l.parse_struct("test.logix");
    assert_eq!(
        e,
        ParseError::MissingStructMember {
            span: l.span("test.logix", 3, 0, 1),
            type_label: "Struct",
            member: "bbbb",
        }
    );
    assert_eq!(
        debval(&e),
        [
            "\n",
            "error: Missing struct member while parsing `Struct`\n",
            "   ---> test.logix:3:0\n",
            "    |\n",
            "  2 |   aaa: 10\n",
            "  3 | }\n",
            "    | ^ expected `bbbb`\n",
        ]
        .concat()
    );
    assert_eq!(
        disval(&e),
        "Missing struct member `bbbb` while parsing `Struct` in test.logix:3:0"
    );
}

#[test]
fn duplicate_member() {
    let mut l = Loader::init().with_file("test.logix", b"Struct {\n  aaa: 20\n  aaa: 30\n}");
    let e = l.parse_struct("test.logix");
    assert_eq!(
        e,
        ParseError::DuplicateStructMember {
            span: l.span("test.logix", 3, 2, 3),
            type_label: "Struct",
            member: "aaa",
        }
    );
    assert_eq!(
        disval(&e),
        "Duplicate struct member `aaa` while parsing `Struct` in test.logix:3:2"
    );
}

#[test]
fn not_valid_number() {
    let mut l = Loader::init().with_file("test.logix", b"Struct {\n  aaa: \"aa\"\n  bbbb: \"x\"\n}");
    let e = l.parse_struct("test.logix");
    assert_eq!(
        e,
        ParseError::UnexpectedToken {
            span: l.span("test.logix", 2, 7, 4),
            while_parsing: "u32",
            wanted: Wanted::LitNum("unsigned integer"),
            got_token: "string",
        }
    );
}

#[test]
fn duplicate_map_entry() {
    let mut l = Loader::init().with_file("test.logix", b"{\n  a: 1\n  a: 2\n}");
    let e = l.parse_file::<LogixMap<i32>>("test.logix");
    match &e {
        ParseError::Warning(Warn::DuplicateMapEntry { span, key }) => {
            assert_eq!(key.as_str(), "a");
            assert_eq!(span.line(), 3);
            assert_eq!(span.col(), 2);
        }
        other => panic!("{other:?}"),
    }
}

#[test]
fn fixed_array_too_long() {
    let mut l = Loader::init().with_file("test.logix", b"[10,11,12,13]");
    let e = l.parse_file::<[i32; 3]>("test.logix");
    match &e {
        ParseError::UnexpectedToken { span, while_parsing, got_token, wanted } => {
            assert_eq!(*while_parsing, "Array");
            assert_eq!(*got_token, "number");
            assert_eq!(
                *wanted,
                Wanted::Token(Token::Brace { start: false, brace: logix_type::Brace::Square })
            );
            assert_eq!(span.col(), 10);
        }
        other => panic!("{other:?}"),
    }
}

#[test]
fn successful_parse_reaches_eof() {
    let l = Loader::init().with_file("test.logix", b"Struct {\n  aaa: 10\n  bbbb: \"ok\"\n}\n");
    let (_, r) = l.loader.unwrap().load_file::<Struct>("test.logix");
    let v = r.unwrap();
    assert_eq!(v, Struct { aaa: 10, bbbb: String::from("ok") });
}

#[test]
fn two_types() {
    let mut l = Loader::init().with_file(
        "test.logix",
        b"Struct {\n  aaa: 60\n  bbbb: \"red\"\n}\nStruct {\n  aaa: 60\n  bbbb: \"red\"\n}\n",
    );
    let e = l.parse_struct("test.logix");
    match &e {
        ParseError::UnexpectedToken { while_parsing, got_token, wanted, span } => {
            assert_eq!(*while_parsing, "Struct");
            assert_eq!(*got_token, "identifier");
            assert_eq!(*wanted, Wanted::Token(Token::Newline(true)));
            assert_eq!(span.line(), 5);
        }
        other => panic!("{other:?}"),
    }
}

#[derive(Debug, PartialEq)]
struct Tuple(u32, String);

impl LogixType for Tuple {
    fn descriptor() -> LogixTypeDescriptor {
        LogixTypeDescriptor {
            name: "Tuple",
            doc: "",
            value: LogixValueDescriptor::Tuple {
                members: vec![u32::descriptor(), String::descriptor()],
            },
        }
    }

    fn default_value() -> Option<Self> {
        None
    }

    fn logix_parse(p: &mut LogixParser) -> Result<Value<Self>, ParseError> {
        let open = logix_type::schema::req_tuple_header(p, "Tuple", true)?;
        let v0 = u32::logix_parse(p)?;
        logix_type::schema::req_tuple_sep(p, "Tuple")?;
        let v1 = String::logix_parse(p)?;
        logix_type::schema::req_tuple_end(p, "Tuple")?;
        Ok(Value { value: Tuple(v0.value, v1.value), span: open })
    }
}

impl Loader {
    fn parse_tuple(&mut self, name: &str) -> ParseError {
        self.parse_file::<Tuple>(name)
    }
}

#[test]
fn unclosed_curly_brace() {
    let mut l = Loader::init().with_file("test.logix", b"Struct {");
    let e = l.parse_struct("test.logix");
    assert_eq!(
        e,
        ParseError::UnexpectedToken {
            span: l.span("test.logix", 1, 8, 0),
            while_parsing: "Struct",
            wanted: Wanted::Token(Token::Newline(false)),
            got_token: "end of file",
        }
    );
    assert_eq!(
        debval(&e),
        ["\n",
            "error: Unexpected end of file while parsing `Struct`\n",
            "   ---> test.logix:1:8\n",
            "    |\n",
            "  1 | Struct {\n",
            "    |         ^ expected newline\n",
        ].concat()
    );
}

#[test]
fn one_member_b() {
    let mut l = Loader::init().with_file("test.logix", b"Struct {\n  bbbb: \"yo\"\n}");
    let e = l.parse_struct("test.logix");
    assert_eq!(
        e,
        ParseError::MissingStructMember {
            span: l.span("test.logix", 3, 0, 1),
            type_label: "Struct",
            member: "aaa",
        }
    );
    assert_eq!(
        disval(&e),
        "Missing struct member `aaa` while parsing `Struct` in test.logix:3:0"
    );
}

#[test]
fn one_member_tuple_want_comma() {
    let mut l = Loader::init().with_file("test.logix", b"Tuple(10)");
    let e = l.parse_tuple("test.logix");
    assert_eq!(
        e,
        ParseError::UnexpectedToken {
            span: l.span("test.logix", 1, 8, 1),
            while_parsing: "Tuple",
            got_token: "`)`",
            wanted: Wanted::Token(Token::Delim(logix_type::Delim::Comma)),
        }
    );
    assert_eq!(
        debval(&e),
        ["\n",
            "error: Unexpected `)` while parsing `Tuple`\n",
            "   ---> test.logix:1:8\n",
            "    |\n",
            "  1 | Tuple(10)\n",
            "    |         ^ expected `,`\n",
        ].concat()
    );
    assert_eq!(
        disval(&e),
        "Unexpected `)` while parsing `Tuple`, expected `,` in test.logix:1:8"
    );
}

#[test]
fn one_member_tuple_want_litstr() {
    let mut l = Loader::init().with_file("test.logix", b"Tuple(10, )");
    let e = l.parse_tuple("test.logix");
    assert_eq!(
        e,
        ParseError::UnexpectedToken {
            span: l.span("test.logix", 1, 10, 1),
            while_parsing: "string",
            got_token: "`)`",
            wanted: Wanted::LitStr,
        }
    );
    assert_eq!(
        disval(&e),
        "Unexpected `)` while parsing `string`, expected string in test.logix:1:10"
    );
}

#[test]
fn unknown_character_tilde() {
    let mut l = Loader::init().with_file("test.logix", b"Tuple(10, ~)");
    let e = l.parse_tuple("test.logix");
    assert_eq!(
        disval(&e),
        "Failed to parse input, unexpected character '~' in test.logix:1:10"
    );
    assert_eq!(
        debval(&e),
        ["\n",
            "error: Failed to parse input\n",
            "   ---> test.logix:1:10\n",
            "    |\n",
            "  1 | Tuple(10, ~)\n",
            "    |           ^ unexpected character '~'\n",
        ].concat()
    );
}

#[test]
fn unknown_character_smiley() {
    let mut l = Loader::init().with_file("test.logix", "Tuple(10, \u{01f60e})".as_bytes());
    let e = l.parse_tuple("test.logix");
    assert_eq!(
        disval(&e),
        "Failed to parse input, unexpected character '\u{01f60e}' in test.logix:1:10"
    );
}

#[derive(Debug, PartialEq)]
struct Struct0 {}

impl LogixType for Struct0 {
    fn descriptor() -> LogixTypeDescriptor {
        LogixTypeDescriptor {
            name: "Struct0",
            doc: "",
            value: LogixValueDescriptor::Struct { members: vec![] },
        }
    }

    fn default_value() -> Option<Self> {
        None
    }

    fn logix_parse(p: &mut LogixParser) -> Result<Value<Self>, ParseError> {
        let members: Vec<&'static str> = vec![];
        let seen: Vec<bool> = vec![];
        let open = req_struct_header(p, "Struct0", true)?;
        match next_struct_key(p, "Struct0", &members, &seen)? {
            StructKey::End(_) => Ok(Value { value: Struct0 {}, span: open }),
            StructKey::Member(..) => unreachable!(),
        }
    }
}

#[test]
fn missing_members0() {
    let mut l = Loader::init().with_file("test.logix", b"Struct0 {\n  x: 1\n}");
    let e = l.parse_file::<Struct0>("test.logix");
    match &e {
        ParseError::UnexpectedToken { span, while_parsing, got_token, wanted } => {
            assert_eq!(*while_parsing, "Struct0");
            assert_eq!(*got_token, "identifier");
            assert_eq!(
                *wanted,
                Wanted::Tokens(vec![Token::Brace {
                    start: false,
                    brace: logix_type::Brace::Curly
                }])
            );
            assert_eq!((span.line(), span.col()), (2, 2));
        }
        other => panic!("{other:?}"),
    }
    assert_eq!(
        disval(&e),
        "Unexpected identifier while parsing `Struct0`, expected `}` in test.logix:2:2"
    );
}

#[derive(Debug, PartialEq)]
struct Struct4 {
    _a: i32,
    _b: i32,
    _c: i32,
    _d: i32,
}

impl LogixType for Struct4 {
    fn descriptor() -> LogixTypeDescriptor {
        LogixTypeDescriptor {
            name: "Struct4",
            doc: "",
            value: LogixValueDescriptor::Struct {
                members: vec![
                    ("_a", i32::descriptor()),
                    ("_b", i32::descriptor()),
                    ("_c", i32::descriptor()),
                    ("_d", i32::descriptor()),
                ],
            },
        }
    }

    fn default_value() -> Option<Self> {
        None
    }

    fn logix_parse(p: &mut LogixParser) -> Result<Value<Self>, ParseError> {
        let members: Vec<&'static str> = vec!["_a", "_b", "_c", "_d"];
        let mut vals: [Option<i32>; 4] = [None, None, None, None];
        let open = req_struct_header(p, "Struct4", true)?;
        let end = loop {
            let seen: Vec<bool> = vals.iter().map(|v| v.is_some()).collect();
            match next_struct_key(p, "Struct4", &members, &seen)? {
                StructKey::Member(i, _) => {
                    vals[i] = Some(i32::logix_parse(p)?.value);
                    p.req_newline("Struct4")?;
                }
                StructKey::End(span) => break span,
            }
        };
        for (i, v) in vals.iter().enumerate() {
            if v.is_none() {
                return Err(missing_member_error(&end, "Struct4", members[i]));
            }
        }
        Ok(Value {
            value: Struct4 {
                _a: vals[0].unwrap(),
                _b: vals[1].unwrap(),
                _c: vals[2].unwrap(),
                _d: vals[3].unwrap(),
            },
            span: open,
        })
    }
}

#[test]
fn missing_members4() {
    let mut l = Loader::init().with_file("test.logix", b"Struct4 {\n  x: 1\n}");
    let e = l.parse_file::<Struct4>("test.logix");
    match &e {
        ParseError::UnexpectedToken { wanted, .. } => {
            assert_eq!(
                *wanted,
                Wanted::Tokens(vec![
                    Token::Brace { start: false, brace: logix_type::Brace::Curly },
                    Token::Ident(String::from("_a")),
                    Token::Ident(String::from("_b")),
                    Token::Ident(String::from("_c")),
                    Token::Ident(String::from("_d")),
                ])
            );
        }
        other => panic!("{other:?}"),
    }
    assert_eq!(
        debval(&e),
        ["\n",
            "error: Unexpected identifier while parsing `Struct4`\n",
            "   ---> test.logix:2:2\n",
            "    |\n",
            "  1 | Struct4 {\n",
            "  2 |   x: 1\n",
            "    |   ^ expected one of `}`, `_a`, `_b`, `_c`, or `_d`\n",
            "  3 | }\n",
        ].concat()
    );
    assert_eq!(
        disval(&e),
        "Unexpected identifier while parsing `Struct4`, expected one of `}`, `_a`, `_b`, `_c`, or `_d` in test.logix:2:2"
    );
}

#[test]
fn too_small_array() {
    let mut l = Loader::init().with_file("test.logix", "[\n  1\n  2\n  3\n]".as_bytes());
    let e = l.parse_file::<[i32; 4]>("test.logix");
    assert_eq!(
        e,
        ParseError::UnexpectedToken {
            span: l.span("test.logix", 5, 0, 1),
            while_parsing: "Array",
            got_token: "`]`",
            wanted: Wanted::Item,
        }
    );
    assert_eq!(
        disval(&e),
        "Unexpected `]` while parsing `Array`, expected item in test.logix:5:0"
    );
}

#[test]
fn too_big_array() {
    let mut l = Loader::init().with_file("test.logix", "[\n  1\n  2\n  3\n]".as_bytes());
    let e = l.parse_file::<[i32; 2]>("test.logix");
    assert_eq!(
        disval(&e),
        "Unexpected number while parsing `Array`, expected `]` in test.logix:4:2"
    );
}

#[test]
fn truncated_array_last_item() {
    let mut l = Loader::init().with_file("test.logix", "[\n  1\n  2\n  3\n".as_bytes());
    let e = l.parse_file::<[i32; 4]>("test.logix");
    assert_eq!(
        disval(&e),
        "Unexpected end of file while parsing `Array`, expected item or end in test.logix:4:3"
    );
}

#[test]
fn stray_slash() {
    let mut l = Loader::init().with_file(
        "test.logix",
        b"Struct {\n  aaa: 20\n  bbbb: \"aa\"\n} / hello",
    );
    let e = l.parse_struct("test.logix");
    assert_eq!(
        disval(&e),
        "Failed to parse input, unexpected character '/' in test.logix:4:2"
    );
}

#[test]
fn not_terminated() {
    let mut l = Loader::init().with_file(
        "test.logix",
        b"Struct {\n  aaa: 20\n  bbbb: \"aa\"\n} /* hello",
    );
    let e = l.parse_struct("test.logix");
    assert_eq!(
        disval(&e),
        "Failed to parse input, unexpected end of file, expected `*/` in test.logix:4:10"
    );
}

#[test]
fn unknown_tag() {
    let mut l = Loader::init().with_file(
        "test.logix",
        b"Struct {\n  aaa: 20\n  bbbb: #invalid\"aa\"#\n}",
    );
    let e = l.parse_struct("test.logix");
    match &e {
        ParseError::TokenError { span, error } => {
            assert_eq!((span.line(), span.col()), (3, 8));
            match error {
                TokenError::UnknownStrTag(t) => assert_eq!(t.as_str(), "invalid"),
                other => panic!("{other:?}"),
            }
        }
        other => panic!("{other:?}"),
    }
    assert_eq!(
        disval(&e),
        "Failed to parse input, unknown string tag `invalid` in test.logix:3:8"
    );
}

#[test]
fn unterminated_eol() {
    let mut l = Loader::init().with_file(
        "test.logix",
        b"Struct {\n  aaa: 20\n  bbbb: \"aa\n}",
    );
    let e = l.parse_struct("test.logix");
    assert_eq!(
        disval(&e),
        "Failed to parse input, unexpected end of the string, expected `\"` in test.logix:3:11"
    );
}

#[test]
fn unterminated_eof() {
    let mut l = Loader::init().with_file("test.logix", b"Struct {\n  aaa: 20\n  bbbb: \"aa");
    let e = l.parse_struct("test.logix");
    assert_eq!(
        disval(&e),
        "Failed to parse input, unexpected end of the string, expected `\"` in test.logix:3:11"
    );
}

#[test]
fn not_a_string() {
    let mut l = Loader::init().with_file(
        "test.logix",
        b"Struct {\n  aaa: 20\n  bbbb: #txt(aa)\n}",
    );
    let e = l.parse_struct("test.logix");
    assert_eq!(
        disval(&e),
        "Failed to parse input, unexpected character '#' in test.logix:3:8"
    );
}

#[test]
fn invalid_tag() {
    let mut l = Loader::init().with_file(
        "test.logix",
        b"Struct {\n  aaa: 20\n  bbbb: #%\"aa\"\n}",
    );
    let e = l.parse_struct("test.logix");
    assert_eq!(
        disval(&e),
        "Failed to parse input, unexpected character '#' in test.logix:3:8"
    );
}

#[test]
fn unterminated_tag() {
    let mut l = Loader::init().with_file("test.logix", b"Struct {\n  aaa: 20\n  bbbb: #hello");
    let e = l.parse_struct("test.logix");
    assert_eq!(
        disval(&e),
        "Failed to parse input, unexpected character '#' in test.logix:3:8"
    );
}

fn unterminated_eof_tagged(tag: logix_type::StrTag, tag_str: &str) {
    let mut l = Loader::init().with_file(
        "test.logix",
        format!("Struct {{\n  aaa: 20\n  bbbb: #{tag_str}\"aa").as_bytes(),
    );
    let e = l.parse_struct("test.logix");
    match &e {
        ParseError::TokenError { span, error } => {
            assert_eq!((span.line(), span.col()), (3, 15));
            assert_eq!(
                *error,
                TokenError::MissingTaggedStringTerminator { tag, suffix: StrTagSuffix::new(1) }
            );
        }
        other => panic!("{other:?}"),
    }
}

#[test]
fn unterminated_eof_raw() {
    unterminated_eof_tagged(logix_type::StrTag::Raw, "raw");
}

#[test]
fn unterminated_eof_esc() {
    unterminated_eof_tagged(logix_type::StrTag::Esc, "esc");
}

#[test]
fn unterminated_eof_txt() {
    unterminated_eof_tagged(logix_type::StrTag::Txt, "txt");
}
