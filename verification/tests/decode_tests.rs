use logix_type::types::map::LogixMap;
use logix_type::types::string::ShortStr;
use logix_type::error::EscStrError;
use logix_type::loader::CachedFile;
use logix_type::parser::LogixParser;
use logix_type::token::{esc, txt};
use logix_type::type_trait::LogixType;

#[test]
fn esc_basics() {
    assert_eq!(esc::decode_str("hello").unwrap(), "hello");
    assert_eq!(esc::decode_str("a\\nb").unwrap(), "a\nb");
    assert_eq!(esc::decode_str("a\\rb").unwrap(), "a\rb");
    assert_eq!(esc::decode_str("a\\tb").unwrap(), "a\tb");
    assert_eq!(esc::decode_str("a\\\"b").unwrap(), "a\"b");
    assert_eq!(esc::decode_str("a\\\\b").unwrap(), "a\\b");
    assert_eq!(esc::decode_str("a\\x41b").unwrap(), "aAb");
    assert_eq!(esc::decode_str("a\\xffb").unwrap(), "a\u{ff}b");
    assert_eq!(esc::decode_str("a\\u{1f60e}b").unwrap(), "a\u{1f60e}b");
    assert_eq!(esc::decode_str("\\u{41}").unwrap(), "A");
}

#[test]
fn esc_errors() {
    assert_eq!(
        esc::decode_str("ab\\x4").unwrap_err(),
        (3, 3, EscStrError::TruncatedHex)
    );
    assert_eq!(
        esc::decode_str("ab\\xzz!").unwrap_err(),
        (3, 4, EscStrError::InvalidHex)
    );
    assert_eq!(
        esc::decode_str("\\u41}").unwrap_err(),
        (1, 3, EscStrError::InvalidUnicodeMissingStartBrace)
    );
    assert_eq!(
        esc::decode_str("\\u{414141414141}").unwrap_err(),
        (1, 11, EscStrError::InvalidUnicodeMissingEndBrace)
    );
    assert_eq!(
        esc::decode_str("\\u{zz}").unwrap_err(),
        (1, 6, EscStrError::InvalidUnicodeHex)
    );
    assert_eq!(
        esc::decode_str("\\u{d800}").unwrap_err(),
        (1, 8, EscStrError::InvalidUnicodePoint(0xd800))
    );
    assert_eq!(
        esc::decode_str("a\\qb").unwrap_err(),
        (2, 2, EscStrError::InvalidEscapeChar('q'))
    );
}

#[test]
fn txt_basics() {
    // Common leading whitespace goes; a blank leading and trailing line go;
    // interior blank lines become paragraph breaks.
    assert_eq!(
        txt::decode_str("\n    Hello\n    World\n"),
        "HelloWorld"
    );
    assert_eq!(
        txt::decode_str("\n    Hello\n\n    World\n"),
        "Hello\nWorld"
    );
    assert_eq!(
        txt::decode_str("  a\n    b\n"),
        "a  b"
    );
    assert_eq!(txt::decode_str(""), "");
    assert_eq!(txt::decode_str("plain"), "plain");
}

#[test]
fn txt_tab_prefix_rule() {
    // The common prefix counts bytes of ASCII whitespace, so a tab and a
    // space both count as one; the shortest prefix wins.
    assert_eq!(txt::decode_str("\n\tx\n\t\ty\n"), "x\ty");
}

#[test]
fn int_parse_exact() {
    fn parse<T: LogixType>(src: &str) -> Result<T, logix_type::error::ParseError> {
        let file = CachedFile::from_slice("test.logix", src.as_bytes());
        let mut p = LogixParser::new(&file);
        T::logix_parse(&mut p).map(|v| v.value)
    }
    assert_eq!(parse::<u32>("10").unwrap(), 10);
    assert_eq!(parse::<i32>("-13").unwrap(), -13);
    assert_eq!(parse::<u8>("255").unwrap(), 255);
    assert!(parse::<u8>("256").is_err());
    assert_eq!(parse::<i8>("-128").unwrap(), -128);
    assert!(parse::<i8>("-129").is_err());
    assert_eq!(parse::<i64>("-9223372036854775808").unwrap(), i64::MIN);
    assert_eq!(parse::<u64>("18446744073709551615").unwrap(), u64::MAX);
    assert!(parse::<u64>("18446744073709551616").is_err());
    // Cosmetic separators and dots mean nothing to the meaning of digits.
    assert!(parse::<u32>("1_0").is_err());
    assert!(parse::<u32>("1.5").is_err());
    assert_eq!(parse::<u32>("0").unwrap(), 0);
}

#[test]
fn tagged_strings_decode() {
    let file = CachedFile::from_slice(
        "test.logix",
        b"#esc\"a\\nb\"# ##txt\"\n  one\n  two\n\"##",
    );
    let mut p = LogixParser::new(&file);
    let v1 = String::logix_parse(&mut p).unwrap();
    assert_eq!(v1.value, "a\nb");
    let v2 = String::logix_parse(&mut p).unwrap();
    assert_eq!(v2.value, "onetwo");
}

#[test]
fn short_str_basics() {
    let a = ShortStr::new("hello");
    let b = ShortStr::new("hello");
    let c = ShortStr::new("world");
    assert_eq!(a.as_str(), "hello");
    assert!(a.same_str(&b));
    assert!(!a.same_str(&c));
}

#[test]
fn map_insert_rules() {
    let mut m: LogixMap<i32> = LogixMap::new();
    assert_eq!(m.len(), 0);
    assert!(m.insert_new(ShortStr::new("a"), 1).is_ok());
    assert!(m.insert_new(ShortStr::new("b"), 2).is_ok());
    assert!(m.insert_new(ShortStr::new("a"), 3).is_err());
    assert_eq!(m.len(), 2);
    assert_eq!(m.get("a"), Some(&1));
    assert_eq!(m.get("c"), None);
}
