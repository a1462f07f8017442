use syljs::script_scan::{parse_string_literal_at, string_literals};

#[test]
fn string_literal_at_start_is_read() {
    let src = b"  'a\\nb' rest";
    let (v, end) = parse_string_literal_at(src, 0).unwrap();
    assert_eq!(v, "a\nb");
    assert_eq!(end, 8);
}

#[test]
fn string_literal_past_the_end_is_none() {
    let src = b"\"x\"";
    assert_eq!(parse_string_literal_at(src, 3), None);
    assert_eq!(parse_string_literal_at(src, 100), None);
    assert_eq!(parse_string_literal_at(b"abc", 0), None);
}

#[test]
fn all_string_literals_in_order() {
    let src = b"fetch(\"/a\"); post('b', `c`);";
    assert_eq!(string_literals(src), vec!["/a".to_owned(), "b".to_owned(), "c".to_owned()]);
}
