use helix_picker::highlight::{highlight_runs, Grapheme};

fn graphemes(spans: &[(&str, u64)]) -> Vec<Grapheme> {
    let mut out = Vec::new();
    for (text, span) in spans {
        for c in text.chars() {
            out.push(Grapheme { text: c.to_string(), style: *span });
        }
    }
    out
}

fn runs(g: Vec<Grapheme>, positions: &[u32]) -> Vec<(String, u64, bool)> {
    highlight_runs(&g, &positions.to_vec())
        .into_iter()
        .map(|r| (r.text, r.style, r.highlighted))
        .collect()
}

#[test]
fn highlights_matched_positions() {
    let g = graphemes(&[("hello", 0)]);
    assert_eq!(
        runs(g, &[0, 1, 4]),
        vec![
            ("he".to_string(), 0, true),
            ("ll".to_string(), 0, false),
            ("o".to_string(), 0, true),
        ]
    );
}

#[test]
fn runs_split_at_span_boundaries() {
    assert_eq!(
        runs(graphemes(&[("ab", 0), ("cd", 1)]), &[]),
        vec![("ab".to_string(), 0, false), ("cd".to_string(), 1, false)]
    );
    assert_eq!(
        runs(graphemes(&[("ab", 0), ("cd", 1)]), &[1, 2]),
        vec![
            ("a".to_string(), 0, false),
            ("b".to_string(), 0, true),
            ("c".to_string(), 1, true),
            ("d".to_string(), 1, false),
        ]
    );
}

#[test]
fn multi_char_graphemes_count_once() {
    let g = vec![
        Grapheme { text: "e\u{301}".to_string(), style: 0 },
        Grapheme { text: "x".to_string(), style: 0 },
    ];
    assert_eq!(
        runs(g, &[1]),
        vec![("e\u{301}".to_string(), 0, false), ("x".to_string(), 0, true)]
    );
    assert!(runs(vec![], &[0]).is_empty());
}

#[test]
fn positions_in_any_order_and_repeated() {
    assert_eq!(
        runs(graphemes(&[("hello", 0)]), &[4, 1, 0, 1]),
        vec![
            ("he".to_string(), 0, true),
            ("ll".to_string(), 0, false),
            ("o".to_string(), 0, true),
        ]
    );
}

#[test]
fn adjacent_spans_of_one_style_join() {
    assert_eq!(
        runs(graphemes(&[("ab", 7), ("cd", 7), ("e", 2)]), &[]),
        vec![("abcd".to_string(), 7, false), ("e".to_string(), 2, false)]
    );
}
