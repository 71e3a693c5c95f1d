use std::collections::HashMap;

use helix_picker::query::{parse, PickerQuery};

fn as_map(q: PickerQuery) -> HashMap<String, String> {
    q.fields.into_iter().map(|f| (f.column, f.pattern)).collect()
}

fn expect(pairs: &[(&str, &str)]) -> HashMap<String, String> {
    pairs.iter().map(|(k, v)| (k.to_string(), v.to_string())).collect()
}

fn columns() -> Vec<String> {
    vec![
        "primary".into(),
        "field1".into(),
        "field2".into(),
        "another".into(),
        "anode".into(),
    ]
}

#[test]
fn parse_query_test() {
    let columns = &columns();
    let primary_column = 0;

    // Basic field splitting
    assert_eq!(
        as_map(parse(columns, primary_column, "hello world")),
        expect(&[("primary", "hello world")])
    );
    assert_eq!(
        as_map(parse(columns, primary_column, "hello %field1:world %field2:!")),
        expect(&[("primary", "hello"), ("field1", "world"), ("field2", "!")])
    );
    assert_eq!(
        as_map(parse(columns, primary_column, "%field1:abc %field2:def xyz")),
        expect(&[("primary", "xyz"), ("field1", "abc"), ("field2", "def")])
    );

    // Trailing space is trimmed
    assert_eq!(
        as_map(parse(columns, primary_column, "hello ")),
        expect(&[("primary", "hello")])
    );

    // Trailing fields are trimmed.
    assert_eq!(
        as_map(parse(columns, primary_column, "hello %foo")),
        expect(&[("primary", "hello")])
    );

    // Quoting
    assert_eq!(
        as_map(parse(columns, primary_column, r#"hello %field1:"a b c""#)),
        expect(&[("primary", "hello"), ("field1", "a b c")])
    );

    // Escaping
    assert_eq!(
        as_map(parse(columns, primary_column, r#"hello\ world"#)),
        expect(&[("primary", r#"hello\ world"#)])
    );
    assert_eq!(
        as_map(parse(columns, primary_column, r#"hello \%field1:world"#)),
        expect(&[("primary", "hello %field1:world")])
    );
    assert_eq!(
        as_map(parse(columns, primary_column, r#"hello %field1:"a\"b""#)),
        expect(&[("primary", "hello"), ("field1", r#"a"b"#)])
    );
    assert_eq!(
        as_map(parse(columns, primary_column, r#"%field1:hello\ world"#)),
        expect(&[("field1", r#"hello\ world"#)])
    );
    assert_eq!(
        as_map(parse(columns, primary_column, r#"%field1:"hello\ world""#)),
        expect(&[("field1", r#"hello\ world"#)])
    );
    assert_eq!(
        as_map(parse(columns, primary_column, r#"\bfoo\b"#)),
        expect(&[("primary", r#"\bfoo\b"#)])
    );

    // Prefix
    assert_eq!(
        as_map(parse(columns, primary_column, "hello %anot:abc")),
        expect(&[("primary", "hello"), ("another", "abc")])
    );
    assert_eq!(
        as_map(parse(columns, primary_column, "hello %ano:abc")),
        expect(&[("primary", "hello"), ("anode", "abc")])
    );
    assert_eq!(
        as_map(parse(columns, primary_column, "hello %field1:xyz %fie:abc")),
        expect(&[("primary", "hello"), ("field1", "xyz abc")])
    );
    assert_eq!(
        as_map(parse(columns, primary_column, "hello %fie:abc")),
        expect(&[("primary", "hello"), ("field1", "abc")])
    );
}

#[test]
fn parse_empty_input_is_empty_query() {
    assert!(parse(&columns(), 0, "").fields.is_empty());
}

#[test]
fn parse_keys_are_declared_columns() {
    let cols = columns();
    let q = parse(&cols, 1, "x %zzz:y %an:z %:w \"%q\"");
    for f in &q.fields {
        assert!(cols.contains(&f.column));
    }
}

#[test]
fn parse_plain_input_collapses_spaces() {
    let cols = columns();
    assert_eq!(as_map(parse(&cols, 0, "a  b")), expect(&[("primary", "a b")]));
    assert_eq!(as_map(parse(&cols, 0, "  a   b  c  ")), expect(&[("primary", "a b c")]));
    assert_eq!(as_map(parse(&cols, 0, " a")), expect(&[("primary", "a")]));
    assert_eq!(as_map(parse(&cols, 0, "a:b c")), expect(&[("primary", "a:b c")]));
    assert!(parse(&cols, 0, "   ").fields.is_empty());
    assert_eq!(
        as_map(parse(&cols, 0, "%field1:  x  y")),
        expect(&[("primary", "y"), ("field1", "x")])
    );
}

#[test]
fn parse_non_primary_default_column() {
    let cols = columns();
    assert_eq!(
        as_map(parse(&cols, 2, "abc %pri:d")),
        expect(&[("field2", "abc"), ("primary", "d")])
    );
}

#[test]
fn parse_concatenates_in_input_order() {
    let cols = columns();
    assert_eq!(
        as_map(parse(&cols, 0, "%field2:b %field2:a %field2:c")),
        expect(&[("field2", "b a c")])
    );
}

#[test]
fn query_lookup_and_equality() {
    let cols = columns();
    let a = parse(&cols, 0, "x %field1:y");
    let b = parse(&cols, 0, "%field1:y x");
    let c = parse(&cols, 0, "%field1:y z");
    assert!(a.same_as(&b));
    assert!(!a.same_as(&c));
    assert_eq!(a.get(&"field1".to_string()).map(|s| s.as_str()), Some("y"));
    assert_eq!(a.get(&"field2".to_string()), None);
}

#[test]
fn shortest_column_name_counts_bytes() {
    let cols: Vec<String> = vec!["primary".into(), "ab\u{e9}\u{e9}".into(), "abcde".into()];
    assert_eq!(
        as_map(parse(&cols, 0, "%ab:x")),
        expect(&[("abcde", "x")])
    );
}
