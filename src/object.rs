//! Selection movement over a syntax tree: grow a range to the enclosing node,
//! shrink it to a contained child, or move it to a neighbouring sibling.
use vstd::prelude::*;

verus! {

/// Which end of a range the cursor is at.
#[derive(Clone, Copy, PartialEq, Eq, Debug, Structural)]
pub enum Direction {
    Forward,
    Backward,
}

/// A selected span of characters from `anchor` to `head`.
#[derive(Clone, Copy, PartialEq, Eq, Debug, Structural)]
pub struct Range {
    pub anchor: usize,
    pub head: usize,
}

impl Range {
    pub open spec fn spec_from(&self) -> usize {
        if self.anchor <= self.head { self.anchor } else { self.head }
    }

    pub open spec fn spec_to(&self) -> usize {
        if self.anchor <= self.head { self.head } else { self.anchor }
    }

    pub open spec fn spec_direction(&self) -> Direction {
        if self.head < self.anchor { Direction::Backward } else { Direction::Forward }
    }

    /// The start of the span.
    #[verifier::when_used_as_spec(spec_from)]
    pub fn from(&self) -> (r: usize)
        ensures
            r == self.spec_from(),
    {
        if self.anchor <= self.head { self.anchor } else { self.head }
    }

    /// The end of the span.
    #[verifier::when_used_as_spec(spec_to)]
    pub fn to(&self) -> (r: usize)
        ensures
            r == self.spec_to(),
    {
        if self.anchor <= self.head { self.head } else { self.anchor }
    }

    /// Backward when the head comes before the anchor.
    #[verifier::when_used_as_spec(spec_direction)]
    pub fn direction(&self) -> (r: Direction)
        ensures
            r == self.spec_direction(),
    {
        if self.head < self.anchor { Direction::Backward } else { Direction::Forward }
    }
}

/// The range over `from..to` that points in `direction`.
pub open spec fn spanning(from: usize, to: usize, direction: Direction) -> Range {
    match direction {
        Direction::Forward => Range { anchor: from, head: to },
        Direction::Backward => Range { anchor: to, head: from },
    }
}

fn span_range(from: usize, to: usize, direction: Direction) -> (r: Range)
    ensures
        r == spanning(from, to, direction),
{
    match direction {
        Direction::Forward => Range { anchor: from, head: to },
        Direction::Backward => Range { anchor: to, head: from },
    }
}

/// A set of ranges, one of them primary.
pub struct Selection {
    pub ranges: Vec<Range>,
    pub primary_index: usize,
}

/// One node of a syntax tree: its span in characters, where it hangs, and its
/// children in order.
pub struct SyntaxNode {
    pub start: usize,
    pub end: usize,
    pub named: bool,
    pub parent: Option<usize>,
    /// The position of this node among its parent's children.
    pub index: usize,
    pub children: Vec<usize>,
}

/// A syntax tree held as a list of nodes; node 0 is the root, and every node
/// comes after its parent.
pub struct SyntaxTree {
    pub nodes: Vec<SyntaxNode>,
}

impl SyntaxTree {
    pub open spec fn node(&self, n: int) -> SyntaxNode {
        self.nodes@[n]
    }

    pub open spec fn child(&self, n: int, k: int) -> int {
        self.nodes@[n].children@[k] as int
    }

    /// Parents come first, parent and child links agree, and a child's span
    /// lies inside its parent's.
    pub open spec fn wf(&self) -> bool {
        &&& self.nodes.len() > 0
        &&& self.node(0).parent is None
        &&& forall|n: int| 0 < n < self.nodes.len() ==> {
            let p = (#[trigger] self.node(n)).parent;
            &&& p matches Some(q) && q < n
            &&& self.node(n).index < self.node(p->0 as int).children.len()
            &&& self.child(p->0 as int, self.node(n).index as int) == n
        }
        &&& forall|n: int, k: int|
            0 <= n < self.nodes.len() && 0 <= k < self.node(n).children.len() ==> {
                let c = #[trigger] self.child(n, k);
                &&& n < c < self.nodes.len()
                &&& self.node(c).parent == Some(n as usize)
                &&& self.node(c).index == k
            }
    }

    /// The first child of `n`, from position `k` on, whose span covers `from..to`.
    pub open spec fn covering_child_from(&self, n: int, from: usize, to: usize, k: int) -> Option<int>
        decreases self.node(n).children.len() - k,
    {
        if k < 0 || k >= self.node(n).children.len() {
            None
        } else {
            let c = self.child(n, k);
            if 0 <= c < self.nodes.len() && self.node(c).start <= from && to <= self.node(c).end {
                Some(c)
            } else {
                self.covering_child_from(n, from, to, k + 1)
            }
        }
    }

    /// The smallest node under `n` that covers `from..to`, going down through
    /// the first covering child at each level; `n` itself when no child covers it.
    pub open spec fn descend(&self, n: int, from: usize, to: usize) -> int
        decreases self.nodes.len() - n,
    {
        match self.covering_child_from(n, from, to, 0) {
            Some(c) => if n < c < self.nodes.len() {
                self.descend(c, from, to)
            } else {
                n
            },
            None => n,
        }
    }

    /// From `n`, the first ancestor-or-self whose span differs from
    /// `from..to`, or the root.
    pub open spec fn grow(&self, n: int, from: usize, to: usize) -> int
        decreases n,
    {
        let node = self.node(n);
        if node.start == from && node.end == to {
            match node.parent {
                Some(p) => if 0 <= p < n {
                    self.grow(p as int, from, to)
                } else {
                    n
                },
                None => n,
            }
        } else {
            n
        }
    }

    /// The next sibling of `n`, or else of its nearest ancestor that has one.
    pub open spec fn next_sibling_up(&self, n: int) -> Option<int>
        decreases n,
    {
        match self.node(n).parent {
            Some(p) => if 0 <= p < n {
                if self.node(n).index + 1 < self.node(p as int).children.len() {
                    Some(self.child(p as int, self.node(n).index + 1))
                } else {
                    self.next_sibling_up(p as int)
                }
            } else {
                None
            },
            None => None,
        }
    }

    /// The previous sibling of `n`, or else of its nearest ancestor that has one.
    pub open spec fn prev_sibling_up(&self, n: int) -> Option<int>
        decreases n,
    {
        match self.node(n).parent {
            Some(p) => if 0 <= p < n {
                if self.node(n).index > 0 {
                    Some(self.child(p as int, self.node(n).index - 1))
                } else {
                    self.prev_sibling_up(p as int)
                }
            } else {
                None
            },
            None => None,
        }
    }

    /// The first named child of `n`, from position `k` on, that lies within `from..to`.
    pub open spec fn contained_child_from(&self, n: int, from: usize, to: usize, k: int) -> Option<int>
        decreases self.node(n).children.len() - k,
    {
        if k < 0 || k >= self.node(n).children.len() {
            None
        } else {
            let c = self.child(n, k);
            if 0 <= c < self.nodes.len() && self.node(c).named && from <= self.node(c).start
                && self.node(c).end <= to {
                Some(c)
            } else {
                self.contained_child_from(n, from, to, k + 1)
            }
        }
    }

    /// The range over node `n`'s span, pointing in `direction`.
    pub open spec fn node_range(&self, n: int, direction: Direction) -> Range {
        spanning(self.node(n).start, self.node(n).end, direction)
    }

    /// The first child of `n` whose span covers `from..to`.
    fn first_covering_child(&self, n: usize, from: usize, to: usize) -> (r: Option<usize>)
        requires
            self.wf(),
            n < self.nodes.len(),
        ensures
            match r {
                Some(c) => self.covering_child_from(n as int, from, to, 0) == Some(c as int) && n < c
                    < self.nodes.len(),
                None => self.covering_child_from(n as int, from, to, 0) is None,
            },
    {
        let children = &self.nodes[n].children;
        let mut k: usize = 0;
        while k < children.len()
            invariant
                self.wf(),
                n < self.nodes.len(),
                children == self.nodes@[n as int].children,
                k <= children.len(),
                self.covering_child_from(n as int, from, to, 0)
                    == self.covering_child_from(n as int, from, to, k as int),
            decreases children.len() - k,
        {
            let c = children[k];
            assert(c as int == self.child(n as int, k as int));
            let node = &self.nodes[c];
            if node.start <= from && to <= node.end {
                return Some(c);
            }
            k = k + 1;
        }
        None
    }

    /// The smallest node that covers `from..to`.
    fn find_descendant(&self, from: usize, to: usize) -> (r: usize)
        requires
            self.wf(),
        ensures
            r == self.descend(0, from, to),
            r < self.nodes.len(),
    {
        let mut n: usize = 0;
        loop
            invariant
                self.wf(),
                n < self.nodes.len(),
                self.descend(n as int, from, to) == self.descend(0, from, to),
            decreases self.nodes.len() - n,
        {
            match self.first_covering_child(n, from, to) {
                Some(c) => {
                    n = c;
                },
                None => {
                    return n;
                },
            }
        }
    }
}

impl SyntaxTree {
    /// Node `n` and the span and links that `wf` states of it.
    proof fn lemma_node_links(&self, n: int)
        requires
            self.wf(),
            0 <= n < self.nodes.len(),
        ensures
            self.node(n).parent matches Some(p) ==> p < n && self.node(n).index
                < self.node(p as int).children.len() && self.child(p as int, self.node(n).index as int)
                == n,
    {
        if n > 0 {
            assert(self.node(n).parent is Some);
        }
    }

    /// The ancestor-or-self of `n` where growing from `from..to` stops.
    fn grow_node(&self, n: usize, from: usize, to: usize) -> (r: usize)
        requires
            self.wf(),
            n < self.nodes.len(),
        ensures
            r == self.grow(n as int, from, to),
            r < self.nodes.len(),
    {
        let mut cur = n;
        loop
            invariant
                self.wf(),
                cur < self.nodes.len(),
                self.grow(cur as int, from, to) == self.grow(n as int, from, to),
            decreases cur,
        {
            proof { self.lemma_node_links(cur as int); }
            let node = &self.nodes[cur];
            if node.start == from && node.end == to {
                match node.parent {
                    Some(p) => {
                        cur = p;
                    },
                    None => {
                        return cur;
                    },
                }
            } else {
                return cur;
            }
        }
    }

    /// The next sibling of `n` or of its nearest ancestor that has one.
    fn next_sibling_of(&self, n: usize) -> (r: Option<usize>)
        requires
            self.wf(),
            n < self.nodes.len(),
        ensures
            self.next_sibling_up(n as int) == match r {
                Some(s) => Some(s as int),
                None => None::<int>,
            },
            r matches Some(s) ==> s < self.nodes.len(),
    {
        let mut cur = n;
        loop
            invariant
                self.wf(),
                cur < self.nodes.len(),
                self.next_sibling_up(cur as int) == self.next_sibling_up(n as int),
            decreases cur,
        {
            proof { self.lemma_node_links(cur as int); }
            let node = &self.nodes[cur];
            match node.parent {
                Some(p) => {
                    let siblings = &self.nodes[p].children;
                    if node.index + 1 < siblings.len() {
                        let s = siblings[node.index + 1];
                        assert(s as int == self.child(p as int, node.index + 1));
                        return Some(s);
                    }
                    cur = p;
                },
                None => {
                    return None;
                },
            }
        }
    }

    /// The previous sibling of `n` or of its nearest ancestor that has one.
    fn prev_sibling_of(&self, n: usize) -> (r: Option<usize>)
        requires
            self.wf(),
            n < self.nodes.len(),
        ensures
            self.prev_sibling_up(n as int) == match r {
                Some(s) => Some(s as int),
                None => None::<int>,
            },
            r matches Some(s) ==> s < self.nodes.len(),
    {
        let mut cur = n;
        loop
            invariant
                self.wf(),
                cur < self.nodes.len(),
                self.prev_sibling_up(cur as int) == self.prev_sibling_up(n as int),
            decreases cur,
        {
            proof { self.lemma_node_links(cur as int); }
            let node = &self.nodes[cur];
            match node.parent {
                Some(p) => {
                    if node.index > 0 {
                        let s = self.nodes[p].children[node.index - 1];
                        assert(s as int == self.child(p as int, node.index - 1));
                        return Some(s);
                    }
                    cur = p;
                },
                None => {
                    return None;
                },
            }
        }
    }

    /// The first named child of `n` that lies within `from..to`.
    fn first_contained_child(&self, n: usize, from: usize, to: usize) -> (r: Option<usize>)
        requires
            self.wf(),
            n < self.nodes.len(),
        ensures
            self.contained_child_from(n as int, from, to, 0) == match r {
                Some(c) => Some(c as int),
                None => None::<int>,
            },
            r matches Some(c) ==> c < self.nodes.len(),
    {
        let children = &self.nodes[n].children;
        let mut k: usize = 0;
        while k < children.len()
            invariant
                self.wf(),
                n < self.nodes.len(),
                children == self.nodes@[n as int].children,
                k <= children.len(),
                self.contained_child_from(n as int, from, to, 0)
                    == self.contained_child_from(n as int, from, to, k as int),
            decreases children.len() - k,
        {
            let c = children[k];
            assert(c as int == self.child(n as int, k as int));
            let node = &self.nodes[c];
            if node.named && from <= node.start && node.end <= to {
                return Some(c);
            }
            k = k + 1;
        }
        None
    }
}

/// A way to move a range over the syntax tree.
#[derive(Clone, Copy, PartialEq, Eq, Debug, Structural)]
pub enum Motion {
    Expand,
    Shrink,
    NextSibling,
    PrevSibling,
}

/// Where `motion` takes `r`. Each starts at the smallest node that covers the
/// range; a motion with nowhere to go leaves the range as it is.
pub open spec fn moved(tree: SyntaxTree, r: Range, motion: Motion) -> Range {
    let (from, to, dir) = (r.from(), r.to(), r.direction());
    let n = tree.descend(0, from, to);
    match motion {
        Motion::Expand => tree.node_range(tree.grow(n, from, to), dir),
        Motion::Shrink => match tree.contained_child_from(n, from, to, 0) {
            Some(c) => tree.node_range(c, dir),
            None => r,
        },
        Motion::NextSibling => match tree.next_sibling_up(n) {
            Some(s) => tree.node_range(s, dir),
            None => r,
        },
        Motion::PrevSibling => match tree.prev_sibling_up(n) {
            Some(s) => tree.node_range(s, dir),
            None => r,
        },
    }
}

fn move_range(tree: &SyntaxTree, r: Range, motion: Motion) -> (out: Range)
    requires
        tree.wf(),
    ensures
        out == moved(*tree, r, motion),
{
    let (from, to, dir) = (r.from(), r.to(), r.direction());
    let n = tree.find_descendant(from, to);
    let target = match motion {
        Motion::Expand => Some(tree.grow_node(n, from, to)),
        Motion::Shrink => tree.first_contained_child(n, from, to),
        Motion::NextSibling => tree.next_sibling_of(n),
        Motion::PrevSibling => tree.prev_sibling_of(n),
    };
    match target {
        Some(t) => span_range(tree.nodes[t].start, tree.nodes[t].end, dir),
        None => r,
    }
}

/// Every range moved by `motion`, in order.
pub open spec fn moved_ranges(tree: SyntaxTree, ranges: Seq<Range>, motion: Motion) -> Seq<Range> {
    ranges.map_values(|r: Range| moved(tree, r, motion))
}

/// `out` is the selection with every range moved by `motion`, then normalized.
pub open spec fn moved_selection(tree: SyntaxTree, sel: Selection, motion: Motion, out: Selection) -> bool {
    normalized(moved_ranges(tree, sel.ranges@, motion), sel.primary_index as int, out)
}

fn transform(tree: &SyntaxTree, selection: Selection, motion: Motion) -> (out: Selection)
    requires
        tree.wf(),
    ensures
        moved_selection(*tree, selection, motion, out),
{
    let mut ranges: Vec<Range> = Vec::new();
    let mut i: usize = 0;
    while i < selection.ranges.len()
        invariant
            tree.wf(),
            i <= selection.ranges.len(),
            ranges.len() == i,
            forall|j: int| 0 <= j < i ==> ranges@[j] == moved(*tree, #[trigger] selection.ranges@[j], motion),
        decreases selection.ranges.len() - i,
    {
        ranges.push(move_range(tree, selection.ranges[i], motion));
        i = i + 1;
    }
    assert(ranges@ =~= moved_ranges(*tree, selection.ranges@, motion));
    normalize(ranges, selection.primary_index)
}

/// Grows each range to the nearest enclosing node whose span differs from
/// it; the selection is then normalized.
pub fn expand_selection(tree: &SyntaxTree, selection: Selection) -> (out: Selection)
    requires
        tree.wf(),
    ensures
        moved_selection(*tree, selection, Motion::Expand, out),
{
    transform(tree, selection, Motion::Expand)
}

/// Shrinks each range to the first named child that lies within it; the
/// selection is then normalized.
pub fn shrink_selection(tree: &SyntaxTree, selection: Selection) -> (out: Selection)
    requires
        tree.wf(),
    ensures
        moved_selection(*tree, selection, Motion::Shrink, out),
{
    transform(tree, selection, Motion::Shrink)
}

/// Moves each range to the next sibling of its node, or of the nearest
/// ancestor that has one; the selection is then normalized.
pub fn select_next_sibling(tree: &SyntaxTree, selection: Selection) -> (out: Selection)
    requires
        tree.wf(),
    ensures
        moved_selection(*tree, selection, Motion::NextSibling, out),
{
    transform(tree, selection, Motion::NextSibling)
}

/// Moves each range to the previous sibling of its node, or of the nearest
/// ancestor that has one; the selection is then normalized.
pub fn select_prev_sibling(tree: &SyntaxTree, selection: Selection) -> (out: Selection)
    requires
        tree.wf(),
    ensures
        moved_selection(*tree, selection, Motion::PrevSibling, out),
{
    transform(tree, selection, Motion::PrevSibling)
}

impl SyntaxTree {
    /// The nearest proper ancestor of `n` with more than one child.
    pub open spec fn parent_with_siblings(&self, n: int) -> Option<int>
        decreases n,
    {
        match self.node(n).parent {
            Some(p) => if 0 <= p < n {
                if self.node(p as int).children.len() > 1 {
                    Some(p as int)
                } else {
                    self.parent_with_siblings(p as int)
                }
            } else {
                None
            },
            None => None,
        }
    }

    /// The ranges over the named children among the first `k` children of `n`.
    pub open spec fn named_child_ranges(&self, n: int, direction: Direction, k: int) -> Seq<Range>
        decreases k,
    {
        if k <= 0 {
            Seq::empty()
        } else {
            let before = self.named_child_ranges(n, direction, k - 1);
            let c = self.child(n, k - 1);
            if self.node(c).named {
                before.push(self.node_range(c, direction))
            } else {
                before
            }
        }
    }

    /// The ranges over all named children of `n`.
    pub open spec fn children_ranges(&self, n: int, direction: Direction) -> Seq<Range> {
        self.named_child_ranges(n, direction, self.node(n).children.len() as int)
    }

    fn parent_with_siblings_of(&self, n: usize) -> (r: Option<usize>)
        requires
            self.wf(),
            n < self.nodes.len(),
        ensures
            self.parent_with_siblings(n as int) == match r {
                Some(p) => Some(p as int),
                None => None::<int>,
            },
            r matches Some(p) ==> p < self.nodes.len(),
    {
        let mut cur = n;
        loop
            invariant
                self.wf(),
                cur < self.nodes.len(),
                self.parent_with_siblings(cur as int) == self.parent_with_siblings(n as int),
            decreases cur,
        {
            proof { self.lemma_node_links(cur as int); }
            match self.nodes[cur].parent {
                Some(p) => {
                    if self.nodes[p].children.len() > 1 {
                        return Some(p);
                    }
                    cur = p;
                },
                None => {
                    return None;
                },
            }
        }
    }

    fn ranges_of_children(&self, n: usize, direction: Direction) -> (r: Vec<Range>)
        requires
            self.wf(),
            n < self.nodes.len(),
        ensures
            r@ == self.children_ranges(n as int, direction),
    {
        let children = &self.nodes[n].children;
        let mut out: Vec<Range> = Vec::new();
        let mut k: usize = 0;
        while k < children.len()
            invariant
                self.wf(),
                n < self.nodes.len(),
                children == self.nodes@[n as int].children,
                k <= children.len(),
                out@ == self.named_child_ranges(n as int, direction, k as int),
            decreases children.len() - k,
        {
            let c = children[k];
            assert(c as int == self.child(n as int, k as int));
            let node = &self.nodes[c];
            if node.named {
                out.push(span_range(node.start, node.end, direction));
            }
            k = k + 1;
        }
        out
    }
}

/// The ranges that replace `r` when selecting all siblings (or, with
/// `children`, all children) of its node: the named children of that node's
/// nearest parent with more than one child (or of the node itself), or `r`
/// alone where there are none.
pub open spec fn spread_range(tree: SyntaxTree, r: Range, children: bool) -> Seq<Range> {
    let n = tree.descend(0, r.from(), r.to());
    let dir = r.direction();
    let group = if children {
        Some(n)
    } else {
        tree.parent_with_siblings(n)
    };
    match group {
        Some(p) => {
            let rs = tree.children_ranges(p, dir);
            if rs.len() > 0 { rs } else { seq![r] }
        },
        None => seq![r],
    }
}

/// The ranges replacing the first `k` ranges of a selection, in order.
pub open spec fn spread_upto(tree: SyntaxTree, ranges: Seq<Range>, children: bool, k: int) -> Seq<Range>
    decreases k,
{
    if k <= 0 {
        Seq::empty()
    } else {
        spread_upto(tree, ranges, children, k - 1) + spread_range(tree, ranges[k - 1], children)
    }
}

fn spread(tree: &SyntaxTree, selection: Selection, children: bool) -> (out: Selection)
    requires
        tree.wf(),
    ensures
        normalized(
            spread_upto(*tree, selection.ranges@, children, selection.ranges.len() as int),
            selection.primary_index as int,
            out,
        ),
{
    let mut ranges: Vec<Range> = Vec::new();
    let mut i: usize = 0;
    while i < selection.ranges.len()
        invariant
            tree.wf(),
            i <= selection.ranges.len(),
            ranges@ == spread_upto(*tree, selection.ranges@, children, i as int),
        decreases selection.ranges.len() - i,
    {
        let r = selection.ranges[i];
        let n = tree.find_descendant(r.from(), r.to());
        let group = if children {
            Some(n)
        } else {
            tree.parent_with_siblings_of(n)
        };
        let mut group_ranges = match group {
            Some(p) => tree.ranges_of_children(p, r.direction()),
            None => Vec::new(),
        };
        if group_ranges.len() == 0 {
            group_ranges.push(r);
        }
        proof {
            assert(group_ranges@ =~= spread_range(*tree, r, children));
        }
        ranges.append(&mut group_ranges);
        i = i + 1;
    }
    normalize(ranges, selection.primary_index)
}

/// Replaces each range by ranges over the named children of the nearest
/// parent, above the range's node, that has more than one child; the
/// selection is then normalized, its primary index kept as the position it
/// had before the ranges were replaced.
pub fn select_all_siblings(tree: &SyntaxTree, selection: Selection) -> (out: Selection)
    requires
        tree.wf(),
    ensures
        normalized(
            spread_upto(*tree, selection.ranges@, false, selection.ranges.len() as int),
            selection.primary_index as int,
            out,
        ),
{
    spread(tree, selection, false)
}

/// Replaces each range by ranges over the named children of its node; the
/// selection is then normalized, its primary index kept as the position it
/// had before the ranges were replaced.
pub fn select_all_children(tree: &SyntaxTree, selection: Selection) -> (out: Selection)
    requires
        tree.wf(),
    ensures
        normalized(
            spread_upto(*tree, selection.ranges@, true, selection.ranges.len() as int),
            selection.primary_index as int,
            out,
        ),
{
    spread(tree, selection, true)
}

/// A range with whether it is the primary one.
pub type Marked = (Range, bool);

/// Two ranges overlap: they start together, or each ends after the other starts.
pub open spec fn overlaps(a: Range, b: Range) -> bool {
    a.from() == b.from() || (a.to() > b.from() && b.to() > a.from())
}

/// The range covering both; it points backward only where both do.
pub open spec fn merged(a: Range, b: Range) -> Range {
    if a.anchor > a.head && b.anchor > b.head {
        Range {
            anchor: if a.anchor >= b.anchor { a.anchor } else { b.anchor },
            head: if a.head <= b.head { a.head } else { b.head },
        }
    } else {
        Range {
            anchor: if a.from() <= b.from() { a.from() } else { b.from() },
            head: if a.to() >= b.to() { a.to() } else { b.to() },
        }
    }
}

/// `s`, ordered by start, with `x` placed after every range that starts no later.
pub open spec fn insert_by_start(s: Seq<Marked>, x: Marked) -> Seq<Marked>
    decreases s.len(),
{
    if s.len() == 0 {
        seq![x]
    } else if s.last().0.from() <= x.0.from() {
        s.push(x)
    } else {
        insert_by_start(s.drop_last(), x).push(s.last())
    }
}

/// The ranges ordered by start; ranges that start together keep their order.
pub open spec fn sort_by_start(s: Seq<Marked>) -> Seq<Marked>
    decreases s.len(),
{
    if s.len() == 0 {
        s
    } else {
        insert_by_start(sort_by_start(s.drop_last()), s.last())
    }
}

/// Ordered ranges with each one that overlaps the range before it merged into it.
pub open spec fn merge_overlapping(s: Seq<Marked>) -> Seq<Marked>
    decreases s.len(),
{
    if s.len() == 0 {
        s
    } else {
        let acc = merge_overlapping(s.drop_last());
        let x = s.last();
        if acc.len() > 0 && overlaps(acc.last().0, x.0) {
            acc.update(acc.len() - 1, (merged(x.0, acc.last().0), acc.last().1 || x.1))
        } else {
            acc.push(x)
        }
    }
}

/// The ranges marked with whether each is at `primary`.
pub open spec fn marked(ranges: Seq<Range>, primary: int) -> Seq<Marked> {
    Seq::new(ranges.len(), |i: int| (ranges[i], i == primary))
}

/// The first marked position, or 0 where none is marked.
pub open spec fn first_marked(s: Seq<Marked>) -> int
    decreases s.len(),
{
    if s.len() == 0 {
        0
    } else if s[0].1 {
        0
    } else if exists|i: int| 0 <= i < s.len() && s[i].1 {
        1 + first_marked(s.drop_first())
    } else {
        0
    }
}

/// A selection of `ranges` with `primary` as primary, normalized: fewer than
/// two ranges stay as they are; otherwise the ranges are ordered by start,
/// overlapping ones are merged, and the primary is the range that holds the
/// old primary.
pub open spec fn normalized(ranges: Seq<Range>, primary: int, out: Selection) -> bool {
    if ranges.len() < 2 {
        out.ranges@ == ranges && out.primary_index == primary
    } else {
        let m = merge_overlapping(sort_by_start(marked(ranges, primary)));
        &&& out.ranges@ == m.map_values(|x: Marked| x.0)
        &&& out.primary_index == first_marked(m)
    }
}

fn merge_ranges(a: Range, b: Range) -> (r: Range)
    ensures
        r == merged(a, b),
{
    if a.anchor > a.head && b.anchor > b.head {
        Range {
            anchor: if a.anchor >= b.anchor { a.anchor } else { b.anchor },
            head: if a.head <= b.head { a.head } else { b.head },
        }
    } else {
        let (af, at, bf, bt) = (a.from(), a.to(), b.from(), b.to());
        Range { anchor: if af <= bf { af } else { bf }, head: if at >= bt { at } else { bt } }
    }
}

fn insert_sorted(v: &mut Vec<Marked>, x: Marked)
    ensures
        final(v)@ == insert_by_start(old(v)@, x),
{
    let ghost s = v@;
    let mut j = v.len();
    proof {
        assert(s.subrange(0, j as int) =~= s);
        assert(insert_by_start(s, x) + s.subrange(j as int, s.len() as int) =~= insert_by_start(s, x));
    }
    while j > 0 && v[j - 1].0.from() > x.0.from()
        invariant
            v@ == s,
            j <= s.len(),
            insert_by_start(s, x) == insert_by_start(s.subrange(0, j as int), x) + s.subrange(j as int, s.len() as int),
        decreases j,
    {
        proof {
            let t = s.subrange(0, j as int);
            assert(t.drop_last() =~= s.subrange(0, j - 1));
            assert(t.last() == s[j - 1]);
            assert(insert_by_start(t, x) == insert_by_start(s.subrange(0, j - 1), x).push(s[j - 1]));
            assert(insert_by_start(s.subrange(0, j - 1), x).push(s[j - 1]) + s.subrange(j as int, s.len() as int)
                =~= insert_by_start(s.subrange(0, j - 1), x) + s.subrange(j - 1, s.len() as int));
        }
        j = j - 1;
    }
    proof {
        let t = s.subrange(0, j as int);
        if j == 0 {
            assert(t.len() == 0);
        } else {
            assert(t.last() == s[j - 1]);
        }
        assert(insert_by_start(s, x) =~= s.subrange(0, j as int).push(x) + s.subrange(j as int, s.len() as int));
    }
    v.insert(j, x);
    proof {
        assert(v@ =~= s.subrange(0, j as int).push(x) + s.subrange(j as int, s.len() as int));
    }
}

/// Normalizes a selection of `ranges` with `primary` as its primary range.
pub fn normalize(ranges: Vec<Range>, primary: usize) -> (out: Selection)
    ensures
        normalized(ranges@, primary as int, out),
{
    if ranges.len() < 2 {
        return Selection { ranges, primary_index: primary };
    }
    let ghost mk = marked(ranges@, primary as int);
    let mut sorted: Vec<Marked> = Vec::new();
    let mut i: usize = 0;
    while i < ranges.len()
        invariant
            i <= ranges.len(),
            mk == marked(ranges@, primary as int),
            sorted@ == sort_by_start(mk.subrange(0, i as int)),
        decreases ranges.len() - i,
    {
        proof {
            assert(mk.subrange(0, i + 1).drop_last() =~= mk.subrange(0, i as int));
        }
        insert_sorted(&mut sorted, (ranges[i], i == primary));
        i = i + 1;
    }
    proof {
        assert(mk.subrange(0, i as int) =~= mk);
    }
    let ghost st = sorted@;
    let mut acc: Vec<Marked> = Vec::new();
    let mut k: usize = 0;
    while k < sorted.len()
        invariant
            st == sorted@,
            k <= sorted.len(),
            acc@ == merge_overlapping(st.subrange(0, k as int)),
        decreases sorted.len() - k,
    {
        proof {
            assert(st.subrange(0, k + 1).drop_last() =~= st.subrange(0, k as int));
        }
        let x = sorted[k];
        let n = acc.len();
        if n > 0 {
            let last = acc[n - 1];
            let (a, b) = (last.0, x.0);
            let (af, at, bf, bt) = (a.from(), a.to(), b.from(), b.to());
            if af == bf || (at > bf && bt > af) {
                acc.set(n - 1, (merge_ranges(b, a), last.1 || x.1));
            } else {
                acc.push(x);
            }
        } else {
            acc.push(x);
        }
        k = k + 1;
    }
    proof {
        assert(st.subrange(0, k as int) =~= st);
    }
    let ghost m = acc@;
    let mut out: Vec<Range> = Vec::new();
    let mut found: Option<usize> = None;
    let mut p: usize = 0;
    while p < acc.len()
        invariant
            m == acc@,
            p <= acc.len(),
            out@ == m.subrange(0, p as int).map_values(|x: Marked| x.0),
            match found {
                Some(f) => f < p && m[f as int].1 && forall|j: int| 0 <= j < f ==> !m[j].1,
                None => forall|j: int| 0 <= j < p ==> !m[j].1,
            },
        decreases acc.len() - p,
    {
        if found.is_none() && acc[p].1 {
            found = Some(p);
        }
        out.push(acc[p].0);
        proof {
            assert(out@ =~= m.subrange(0, p + 1).map_values(|x: Marked| x.0));
        }
        p = p + 1;
    }
    proof {
        assert(m.subrange(0, p as int) =~= m);
        lemma_first_marked(m, found);
    }
    let primary_index = match found {
        Some(f) => f,
        None => 0,
    };
    Selection { ranges: out, primary_index }
}

proof fn lemma_first_marked(m: Seq<Marked>, found: Option<usize>)
    requires
        match found {
            Some(f) => f < m.len() && m[f as int].1 && forall|j: int| 0 <= j < f ==> !m[j].1,
            None => forall|j: int| 0 <= j < m.len() ==> !m[j].1,
        },
    ensures
        first_marked(m) == match found {
            Some(f) => f as int,
            None => 0,
        },
    decreases m.len(),
{
    match found {
        Some(f) => {
            if f > 0 {
                let t = m.drop_first();
                assert(t[f - 1] == m[f as int]);
                assert forall|j: int| 0 <= j < f - 1 implies !t[j].1 by {
                    assert(t[j] == m[j + 1]);
                }
                lemma_first_marked(t, Some((f - 1) as usize));
                assert(!m[0].1);
            }
        },
        None => {
        },
    }
}

} // verus!
