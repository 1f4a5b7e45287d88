use logix_type::error::PathError;
use logix_type::type_trait::LogixType;
use logix_type::types::executable_path::ExecutablePath;
use logix_type::types::valid_path::{FullPath, NameOnlyPath, RelPath, ValidPath};

#[test]
fn full_path_basics() {
    let path = FullPath::try_from_str("/hello/world.txt").unwrap();
    assert_eq!(path.as_path(), "/hello/world.txt");
    assert_eq!(format!("{:?}", path.as_path()), format!("{:?}", "/hello/world.txt"));
    assert_eq!(<FullPath as LogixType>::default_value(), None);
}

#[test]
fn rel_path_basics1() {
    let path = RelPath::try_from_str("hello/world.txt").unwrap();
    assert_eq!(path.as_path(), "hello/world.txt");
    assert_eq!(<RelPath as LogixType>::default_value(), None);
}

#[test]
fn rel_path_basics2() {
    let path = RelPath::try_from_str("world.txt").unwrap();
    assert_eq!(path.as_path(), "world.txt");
    assert_eq!(<RelPath as LogixType>::default_value(), None);
}

#[test]
fn name_only_path_basics() {
    let path = NameOnlyPath::try_from_str("world.txt").unwrap();
    assert_eq!(path.as_path(), "world.txt");
    assert_eq!(<NameOnlyPath as LogixType>::default_value(), None);
}

#[test]
fn valid_path_basics_full() {
    let path = ValidPath::try_from_str("/hello/world.txt").unwrap();
    assert_eq!(path.as_path(), "/hello/world.txt");
    assert!(matches!(path, ValidPath::Full(_)));
    assert_eq!(<ValidPath as LogixType>::default_value(), None);
}

#[test]
fn valid_path_basics_rel() {
    let path = ValidPath::try_from_str("hello/world.txt").unwrap();
    assert_eq!(path.as_path(), "hello/world.txt");
    assert!(matches!(path, ValidPath::Rel(_)));
    assert_eq!(<ValidPath as LogixType>::default_value(), None);
}

#[test]
fn valid_path_basics_name_only() {
    let path = ValidPath::try_from_str("world.txt").unwrap();
    assert_eq!(path.as_path(), "world.txt");
    assert!(matches!(path, ValidPath::Name(_)));
    assert_eq!(<ValidPath as LogixType>::default_value(), None);
}

#[test]
fn path_error_cases() {
    assert_eq!(ValidPath::try_from_str("").unwrap_err(), PathError::EmptyPath);
    assert_eq!(
        ValidPath::try_from_str("a|b").unwrap_err(),
        PathError::InvalidChar('|')
    );
    assert_eq!(
        FullPath::try_from_str("hello/world.txt").unwrap_err(),
        PathError::NotAbsolute
    );
    assert_eq!(
        NameOnlyPath::try_from_str("hello/world.txt").unwrap_err(),
        PathError::NotName
    );
    assert_eq!(
        RelPath::try_from_str("/hello").unwrap_err(),
        PathError::NotRelative
    );
}

#[test]
fn executable_path_basics() {
    let full = ExecutablePath::try_from_str("/bin/sh").unwrap();
    assert_eq!(full.as_path(), "/bin/sh");
    let name = ExecutablePath::try_from_str("sh").unwrap();
    assert_eq!(name.as_path(), "sh");
    assert_eq!(
        ExecutablePath::try_from_str("hello/world.txt").unwrap_err(),
        PathError::NotFullOrNameOnly
    );
    assert_eq!(<ExecutablePath as logix_type::type_trait::LogixType>::default_value(), None);
}

#[test]
fn join_keeps_the_class() {
    let full = FullPath::try_from_str("/opt/data").unwrap();
    assert_eq!(full.join("more/file.txt").unwrap().as_path(), "/opt/data/more/file.txt");
    assert!(full.join("/absolute").is_err());
    let rel = RelPath::try_from_str("a/b").unwrap();
    assert_eq!(rel.join("c").unwrap().as_path(), "a/b/c");
}

#[test]
fn with_file_name_replaces_last_component() {
    let path = FullPath::try_from_str("/hello/world.txt").unwrap();
    assert_eq!(path.with_file_name("other.md").as_path(), "/hello/other.md");
    let rel = RelPath::try_from_str("a/b/c").unwrap();
    assert_eq!(rel.with_file_name("d").as_path(), "a/b/d");
    let name = NameOnlyPath::try_from_str("tool").unwrap();
    assert_eq!(name.with_file_name("other").as_path(), "other");
}

#[test]
fn with_extension_replaces_extension() {
    let path = FullPath::try_from_str("/hello/world.txt").unwrap();
    assert_eq!(path.with_extension("md").as_path(), "/hello/world.md");
    let rel = RelPath::try_from_str("a/archive.tar.gz").unwrap();
    assert_eq!(rel.with_extension("zip").as_path(), "a/archive.tar.zip");
    let bare = RelPath::try_from_str("a/noext").unwrap();
    assert_eq!(bare.with_extension("txt").as_path(), "a/noext.txt");
    let none = FullPath::try_from_str("/hello/world.txt").unwrap();
    assert_eq!(none.with_extension("").as_path(), "/hello/world");
}

#[test]
fn valid_path_with_helpers_keep_class() {
    let vp = ValidPath::try_from_str("rel/run.sh").unwrap();
    let renamed = vp.with_file_name("go.sh");
    assert_eq!(renamed.as_path(), "rel/go.sh");
    let rext = vp.with_extension("bash");
    assert_eq!(rext.as_path(), "rel/run.bash");
    let ep = ExecutablePath::try_from_str("/usr/bin/tool").unwrap();
    assert_eq!(ep.with_file_name("gcc").as_path(), "/usr/bin/gcc");
    assert_eq!(ep.with_extension("exe").as_path(), "/usr/bin/tool.exe");
}
