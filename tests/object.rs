use helix_picker::object::{
    expand_selection, select_all_children, select_all_siblings, select_next_sibling, select_prev_sibling, shrink_selection, Range,
    Selection, SyntaxNode, SyntaxTree,
};

fn node(start: usize, end: usize, parent: Option<usize>, index: usize, children: Vec<usize>) -> SyntaxNode {
    SyntaxNode { start, end, named: true, parent, index, children }
}

// root 0..20 with children 0..5, 6..12 (holding 7..10) and 13..20
fn tree() -> SyntaxTree {
    SyntaxTree {
        nodes: vec![
            node(0, 20, None, 0, vec![1, 2, 3]),
            node(0, 5, Some(0), 0, vec![]),
            node(6, 12, Some(0), 1, vec![4]),
            node(13, 20, Some(0), 2, vec![]),
            node(7, 10, Some(2), 0, vec![]),
        ],
    }
}

fn sel(ranges: &[(usize, usize)], primary_index: usize) -> Selection {
    Selection {
        ranges: ranges.iter().map(|&(anchor, head)| Range { anchor, head }).collect(),
        primary_index,
    }
}

fn pairs(s: &Selection) -> (Vec<(usize, usize)>, usize) {
    (s.ranges.iter().map(|r| (r.anchor, r.head)).collect(), s.primary_index)
}

#[test]
fn expand_to_enclosing_node() {
    let t = tree();
    assert_eq!(pairs(&expand_selection(&t, sel(&[(7, 10)], 0))), (vec![(6, 12)], 0));
    assert_eq!(pairs(&expand_selection(&t, sel(&[(0, 20)], 0))), (vec![(0, 20)], 0));
    assert_eq!(
        pairs(&expand_selection(&t, sel(&[(8, 9), (1, 2)], 0))),
        (vec![(0, 5), (7, 10)], 1)
    );
}

#[test]
fn expand_merges_ranges_that_meet() {
    let t = tree();
    assert_eq!(
        pairs(&expand_selection(&t, sel(&[(7, 10), (10, 7)], 1))),
        (vec![(6, 12)], 0)
    );
    assert_eq!(
        pairs(&expand_selection(&t, sel(&[(12, 6), (12, 6)], 0))),
        (vec![(20, 0)], 0)
    );
}

#[test]
fn shrink_to_contained_child() {
    let t = tree();
    assert_eq!(
        pairs(&shrink_selection(&t, sel(&[(6, 12), (0, 20), (13, 20)], 2))),
        (vec![(0, 5), (7, 10), (13, 20)], 2)
    );
}

#[test]
fn shrink_skips_unnamed_children() {
    let mut t = tree();
    t.nodes[4].named = false;
    assert_eq!(pairs(&shrink_selection(&t, sel(&[(6, 12)], 0))), (vec![(6, 12)], 0));
}

#[test]
fn next_sibling_moves_right() {
    let t = tree();
    assert_eq!(
        pairs(&select_next_sibling(&t, sel(&[(0, 5), (5, 0), (13, 20), (7, 10)], 3))),
        (vec![(6, 12), (13, 20)], 1)
    );
    assert_eq!(pairs(&select_next_sibling(&t, sel(&[(5, 0)], 0))), (vec![(12, 6)], 0));
}

#[test]
fn prev_sibling_moves_left() {
    let t = tree();
    assert_eq!(
        pairs(&select_prev_sibling(&t, sel(&[(13, 20), (7, 10), (0, 5)], 2))),
        (vec![(0, 5), (6, 12)], 0)
    );
}

#[test]
fn all_siblings_of_nearest_branching_parent() {
    let t = tree();
    assert_eq!(
        pairs(&select_all_siblings(&t, sel(&[(7, 10)], 0))),
        (vec![(0, 5), (6, 12), (13, 20)], 0)
    );
    assert_eq!(
        pairs(&select_all_siblings(&t, sel(&[(5, 0), (0, 20)], 1))),
        (vec![(0, 20)], 0)
    );
}

#[test]
fn all_children_of_node() {
    let t = tree();
    assert_eq!(
        pairs(&select_all_children(&t, sel(&[(6, 12), (13, 20), (12, 6)], 2))),
        (vec![(7, 10), (13, 20)], 0)
    );
    assert_eq!(
        pairs(&select_all_children(&t, sel(&[(0, 20)], 0))),
        (vec![(0, 5), (6, 12), (13, 20)], 0)
    );
}
