//! The mathematical model of a document: a sequence of nodes in document
//! (pre-order) order, each with its depth below the root. A node's subtree
//! is the run of nodes after it that lie deeper than it.
use vstd::prelude::*;

verus! {

#[derive(PartialEq, Eq, Structural, Clone, Copy, Debug)]
pub enum NodeKind {
    Element,
    Text,
    Other,
}

/// What the library knows of one node.
pub struct NodeView {
    pub depth: nat,
    pub kind: NodeKind,
    /// The element's local name; empty for other nodes.
    pub name: Seq<char>,
    /// The text node's contents; empty for other nodes.
    pub text: Seq<char>,
    /// The element's attributes as (name, value), in order; empty for other nodes.
    pub attrs: Seq<(Seq<char>, Seq<char>)>,
    /// The parser's own identifier of the node.
    pub source: nipper::NodeId,
}

/// One root at depth 0; every later node lies at most one level below the
/// node before it, and below the root. Names, attributes and text appear
/// only on the kinds of node that carry them.
pub open spec fn well_formed(t: Seq<NodeView>) -> bool {
    &&& t.len() > 0
    &&& t[0].depth == 0
    &&& forall|i: int| 0 < i < t.len() ==> 1 <= #[trigger] t[i].depth <= t[i - 1].depth + 1
    &&& forall|i: int|
        0 <= i < t.len() ==> (#[trigger] t[i]).kind != NodeKind::Element ==> t[i].name.len() == 0
            && t[i].attrs.len() == 0
    &&& forall|i: int|
        0 <= i < t.len() ==> (#[trigger] t[i]).kind != NodeKind::Text ==> t[i].text.len() == 0
}

/// Node `j` is `x` or one of its descendants.
pub open spec fn in_subtree(t: Seq<NodeView>, x: int, j: int) -> bool {
    &&& 0 <= x <= j < t.len()
    &&& forall|k: int| x < k <= j ==> #[trigger] t[k].depth > t[x].depth
}

/// The first position at or after `k` that is not deeper than `x`.
pub open spec fn scan_end(t: Seq<NodeView>, x: int, k: int) -> int
    decreases t.len() - k,
{
    if 0 <= k < t.len() && t[k].depth > t[x].depth {
        scan_end(t, x, k + 1)
    } else {
        k
    }
}

/// One past the last node of the subtree of `x`.
pub open spec fn subtree_end(t: Seq<NodeView>, x: int) -> int {
    scan_end(t, x, x + 1)
}

/// What a node contributes to the text of a subtree.
pub open spec fn own_text(n: NodeView) -> Seq<char> {
    if n.kind == NodeKind::Text {
        n.text
    } else {
        Seq::empty()
    }
}

/// The text of the text nodes at positions `lo .. hi`, concatenated in order.
pub open spec fn texts(t: Seq<NodeView>, lo: int, hi: int) -> Seq<char>
    decreases hi - lo,
{
    if hi <= lo {
        Seq::empty()
    } else {
        texts(t, lo, hi - 1) + own_text(t[hi - 1])
    }
}

/// The text of the subtree of `x`, in pre-order.
pub open spec fn full_text_of(t: Seq<NodeView>, x: int) -> Seq<char> {
    texts(t, x, subtree_end(t, x))
}

/// The value of the first attribute named `name` at or after position `k`.
pub open spec fn attr_from(attrs: Seq<(Seq<char>, Seq<char>)>, name: Seq<char>, k: int) -> Option<
    Seq<char>,
>
    decreases attrs.len() - k,
{
    if k < 0 || k >= attrs.len() {
        None
    } else if attrs[k].0 == name {
        Some(attrs[k].1)
    } else {
        attr_from(attrs, name, k + 1)
    }
}

/// The value of the first attribute named `name`.
pub open spec fn attr_value(attrs: Seq<(Seq<char>, Seq<char>)>, name: Seq<char>) -> Option<
    Seq<char>,
> {
    attr_from(attrs, name, 0)
}

proof fn lemma_scan_end(t: Seq<NodeView>, x: int, k: int)
    requires
        0 <= x < k <= t.len(),
        forall|m: int| x < m < k ==> #[trigger] t[m].depth > t[x].depth,
    ensures
        k <= scan_end(t, x, k) <= t.len(),
        forall|m: int| x < m < scan_end(t, x, k) ==> #[trigger] t[m].depth > t[x].depth,
        scan_end(t, x, k) == t.len() || t[scan_end(t, x, k)].depth <= t[x].depth,
    decreases t.len() - k,
{
    if k < t.len() && t[k].depth > t[x].depth {
        lemma_scan_end(t, x, k + 1);
    }
}

/// The subtree of `x` is exactly the positions from `x` up to its end: a
/// pre-order walk from `x` visits those positions, in that order.
pub proof fn lemma_subtree_is_range(t: Seq<NodeView>, x: int, j: int)
    requires
        0 <= x < t.len(),
    ensures
        x < subtree_end(t, x) <= t.len(),
        in_subtree(t, x, j) <==> x <= j < subtree_end(t, x),
{
    lemma_scan_end(t, x, x + 1);
    let e = subtree_end(t, x);
    if in_subtree(t, x, j) && j >= e {
        assert(t[e].depth > t[x].depth);
    }
}

/// The text of consecutive ranges concatenates in order.
pub proof fn lemma_texts_split(t: Seq<NodeView>, lo: int, mid: int, hi: int)
    requires
        lo <= mid <= hi,
    ensures
        texts(t, lo, hi) == texts(t, lo, mid) + texts(t, mid, hi),
    decreases hi - mid,
{
    if hi == mid {
        assert(texts(t, lo, mid) + texts(t, mid, hi) =~= texts(t, lo, mid));
    } else {
        lemma_texts_split(t, lo, mid, hi - 1);
        assert(texts(t, lo, hi) =~= texts(t, lo, mid) + texts(t, mid, hi));
    }
}

proof fn lemma_texts_empty(t: Seq<NodeView>, lo: int, hi: int)
    requires
        forall|j: int| lo <= j < hi ==> (#[trigger] t[j]).kind != NodeKind::Text,
    ensures
        texts(t, lo, hi) == Seq::<char>::empty(),
    decreases hi - lo,
{
    if hi > lo {
        lemma_texts_empty(t, lo, hi - 1);
        assert(texts(t, lo, hi) =~= Seq::<char>::empty());
    }
}

/// A subtree without text nodes has empty text.
pub proof fn lemma_full_text_without_text(t: Seq<NodeView>, x: int)
    requires
        0 <= x < t.len(),
        forall|j: int| in_subtree(t, x, j) ==> (#[trigger] t[j]).kind != NodeKind::Text,
    ensures
        full_text_of(t, x) == Seq::<char>::empty(),
{
    assert forall|j: int| x <= j < subtree_end(t, x) implies (#[trigger] t[j]).kind
        != NodeKind::Text by {
        lemma_subtree_is_range(t, x, j);
    }
    lemma_texts_empty(t, x, subtree_end(t, x));
}

/// The root's subtree is the whole document: every node lies under the one
/// root, which is position 0.
pub proof fn lemma_root_spans_document(t: Seq<NodeView>)
    requires
        well_formed(t),
    ensures
        subtree_end(t, 0) == t.len(),
        forall|j: int| 0 <= j < t.len() ==> in_subtree(t, 0, j),
{
    assert forall|j: int| 0 <= j < t.len() implies in_subtree(t, 0, j) by {
        assert forall|k: int| 0 < k <= j implies #[trigger] t[k].depth > t[0].depth by {}
    }
    lemma_subtree_is_range(t, 0, t.len() - 1);
}

} // verus!
