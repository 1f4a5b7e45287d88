use logix_type::loader::CachedFile;
use logix_type::span::SourceSpan;

#[test]
fn span_coverage_hacks() {
    assert_eq!(
        SourceSpan::new(
            &CachedFile::from_slice("test.logix", b"hello world"),
            6,
            1,
            6,
            5,
        )
        .value(),
        "world"
    );
    assert_eq!(SourceSpan::empty().value(), "");
}

#[test]
fn line_width() {
    assert_eq!(SourceSpan::empty().calc_ln_width(0), 3);
    assert_eq!(SourceSpan::empty().calc_ln_width(10), 3);
    assert_eq!(SourceSpan::empty().calc_ln_width(100), 3);
    assert_eq!(SourceSpan::empty().calc_ln_width(1000), 4);
    assert_eq!(SourceSpan::empty().calc_ln_width(10000), 5);
    assert_eq!(SourceSpan::empty().calc_ln_width(100000), 6);
    assert_eq!(SourceSpan::empty().calc_ln_width(1000000), 10);
    assert_eq!(SourceSpan::empty().calc_ln_width(10000000), 10);
    assert_eq!(SourceSpan::empty().calc_ln_width(100000000), 10);
    assert_eq!(SourceSpan::empty().calc_ln_width(1000000000), 10);
    assert_eq!(SourceSpan::empty().calc_ln_width(10000000000), 10);
}

#[test]
fn lines_window_and_caret() {
    let file = CachedFile::from_slice("test.logix", b"one\ntwo\nthree\nfour\nfive\n");
    let span = SourceSpan::new(&file, 8, 3, 0, 5);
    let rows = span.lines(1);
    assert_eq!(rows.len(), 3);
    assert_eq!(rows[0], (2, None, String::from("two")));
    assert_eq!(rows[1], (3, Some((0, 5)), String::from("three")));
    assert_eq!(rows[2], (4, None, String::from("four")));
}
