use logix_type::error::ParseError;
use logix_type::loader::CachedFile;
use logix_type::parser::delimited::ParseDelimited;
use logix_type::parser::LogixParser;
use logix_type::token::{Brace, Token};
use logix_type::type_trait::LogixType;

fn test_vec(src: &str) -> Result<Vec<i32>, ParseError> {
    let file = CachedFile::from_slice("test.logix", src.as_bytes());
    let mut p = LogixParser::new(&file);
    p.req_token("list1", Token::Brace { start: true, brace: Brace::Square })?;
    let mut it = ParseDelimited::new("list2");
    let mut out: Vec<i32> = Vec::new();
    while let Some(v) = it.next_item::<i32>(&mut p)? {
        out.push(v.value);
    }
    p.req_token("list1", Token::Brace { start: false, brace: Brace::Square })?;
    Ok(out)
}

#[test]
fn delimited_basics() {
    assert_eq!(test_vec("[]").unwrap(), Vec::<i32>::new());
    assert_eq!(test_vec("[\n]").unwrap(), Vec::<i32>::new());
    assert_eq!(
        test_vec("[,]").unwrap_err().message(),
        "Unexpected `,` while parsing `list2`, expected item or end in test.logix:1:1"
    );
    assert_eq!(
        test_vec("[\n,]").unwrap_err().message(),
        "Unexpected `,` while parsing `list2`, expected item or end in test.logix:2:0"
    );
    assert_eq!(
        test_vec("[,\n]").unwrap_err().message(),
        "Unexpected `,` while parsing `list2`, expected item or end in test.logix:1:1"
    );
    assert_eq!(
        test_vec("[").unwrap_err().message(),
        "Unexpected end of file while parsing `list2`, expected item or end in test.logix:1:1"
    );
    assert_eq!(
        test_vec("[\n").unwrap_err().message(),
        "Unexpected end of file while parsing `list2`, expected item or end in test.logix:1:1"
    );
    assert_eq!(
        test_vec("[0").unwrap_err().message(),
        "Unexpected end of file while parsing `list2`, expected item or end in test.logix:1:2"
    );
    assert_eq!(
        test_vec("[0\n").unwrap_err().message(),
        "Unexpected end of file while parsing `list2`, expected item or end in test.logix:1:2"
    );
    assert_eq!(
        test_vec("[0,").unwrap_err().message(),
        "Unexpected end of file while parsing `list2`, expected item or end in test.logix:1:3"
    );
    assert_eq!(
        test_vec("[0,\n").unwrap_err().message(),
        "Unexpected end of file while parsing `list2`, expected item or end in test.logix:1:3"
    );
    assert_eq!(
        test_vec("[0 1]").unwrap_err().message(),
        "Unexpected number while parsing `list2`, expected delimiter in test.logix:1:3"
    );
    assert_eq!(test_vec("[10]").unwrap(), vec![10]);
    assert_eq!(test_vec("[10,]").unwrap(), vec![10]);
    assert_eq!(test_vec("[10\n]").unwrap(), vec![10]);
    assert_eq!(test_vec("[10\n,]").unwrap(), vec![10]);
    assert_eq!(test_vec("[10,\n]").unwrap(), vec![10]);
    assert_eq!(test_vec("[10,11]").unwrap(), vec![10, 11]);
    assert_eq!(test_vec("[10\n11]").unwrap(), vec![10, 11]);
    assert_eq!(test_vec("[10,\n11]").unwrap(), vec![10, 11]);
    assert_eq!(test_vec("[10\n,11]").unwrap(), vec![10, 11]);
    assert_eq!(test_vec("[10\n,11,]").unwrap(), vec![10, 11]);
    assert_eq!(test_vec("[10\n,11\n,]").unwrap(), vec![10, 11]);
    assert_eq!(test_vec("[10\n,11\n,\n]").unwrap(), vec![10, 11]);
}

#[test]
fn vec_basics() {
    assert_eq!(Vec::<i32>::default_value(), None);
}

#[test]
fn array_basics() {
    let array = [1, 2, 3];
    assert_eq!(array.map(|v| v * 2), vec![2, 4, 6].as_slice());
    assert_eq!(array.first(), Some(&1));
    assert_eq!(AsRef::<[i32]>::as_ref(&array), [1, 2, 3].as_slice());
    assert_eq!(format!("{array:?}"), "[1, 2, 3]");
    assert_eq!(array, [1, 2, 3]);
    assert_eq!(array, [1, 2, 3].as_slice());
    assert_eq!(<[i32; 3]>::default_value(), None);
}

#[test]
fn comments_between_items() {
    assert_eq!(test_vec("[1 /* pause */, 2]").unwrap(), vec![1, 2]);
    assert_eq!(test_vec("[ // lead\n1,\n// middle\n2]").unwrap(), vec![1, 2]);
}
