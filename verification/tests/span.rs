use faye::span::{Location, Source};

#[test]
fn location_counts_lines_and_columns() {
    let source = Source::new(None, "ab\ncd\u{e9}f\n".to_string());
    assert_eq!(source.location(0), Location::new(0, 0));
    assert_eq!(source.location(2), Location::new(0, 2));
    assert_eq!(source.location(3), Location::new(1, 0));
    assert_eq!(source.location(7), Location::new(1, 3));
    assert_eq!(source.location(8), Location::new(1, 4));
    assert_eq!(source.location(9), Location::new(2, 0));
    assert_eq!(source.get_line(1), "cd\u{e9}f");
}

#[test]
fn defaults() {
    assert_eq!(Location::default(), Location::new(0, 0));
    assert_eq!(Source::default().contents(), "");
    assert_eq!(Source::default().count_lines(), 1);
}
