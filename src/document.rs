//! A parsed document: nipper's tree, and an arena that holds every node in
//! document order with its depth, kind, name, attributes and text.
use vstd::prelude::*;
use crate::error::Error;
use crate::markup::{
    attr_lists, children_of, element_name, is_text_node, local_names, matches_node,
    matching_below, matching_descendants, parse_of, node_attrs, node_html, node_ids, node_markups,
    node_matches, node_text, node_texts, parse_document, root_id, root_of, same_node, text_flags,
};
use crate::selector::Selector;
use crate::text::{split_ascii_whitespace, string_views, words};
use crate::tree::{
    NodeKind, NodeView, attr_from, attr_value, full_text_of, in_subtree, lemma_root_spans_document,
    lemma_subtree_is_range,
    scan_end, subtree_end, texts, well_formed,
};

verus! {

/// One node of the arena.
struct Entry {
    depth: usize,
    kind: NodeKind,
    name: String,
    text: String,
    attrs: Vec<(String, String)>,
    source: nipper::NodeId,
}

impl Entry {
    closed spec fn view(&self) -> NodeView {
        NodeView {
            depth: self.depth as nat,
            kind: self.kind,
            name: self.name@,
            text: self.text@,
            attrs: self.attrs@.map_values(|p: (String, String)| (p.0@, p.1@)),
            source: self.source,
        }
    }

    closed spec fn tidy(&self) -> bool {
        &&& self.kind != NodeKind::Element ==> self.name@.len() == 0 && self.attrs@.len() == 0
        &&& self.kind != NodeKind::Text ==> self.text@.len() == 0
    }
}

/// A parsed document. Nodes are addressed by their position in document
/// order; the root is position 0.
pub struct DocumentStore {
    html: nipper::Document,
    nodes: Vec<Entry>,
}

impl View for DocumentStore {
    type V = Seq<NodeView>;

    closed spec fn view(&self) -> Seq<NodeView> {
        self.nodes@.map_values(|e: Entry| e.view())
    }
}

/// The characters of an optional string.
pub open spec fn opt_chars(o: Option<String>) -> Option<Seq<char>> {
    match o {
        Some(s) => Some(s@),
        None => None,
    }
}

/// The words of the `class` attribute of node `x`; none when it has none.
pub open spec fn classes_of(t: Seq<NodeView>, x: int) -> Seq<Seq<char>> {
    match attr_value(t[x].attrs, "class"@) {
        Some(v) => words(v),
        None => Seq::empty(),
    }
}

/// Node `j` is selected in the subtree of `x`: `x` itself when the scope
/// root may match and the selector matched it, a descendant when its
/// identifier is among the `matched` ones.
pub open spec fn selected(
    t: Seq<NodeView>,
    x: int,
    include_self: bool,
    self_matched: bool,
    matched: Seq<nipper::NodeId>,
    j: int,
) -> bool {
    &&& in_subtree(t, x, j)
    &&& if j == x {
        include_self && self_matched
    } else {
        matched.contains(t[j].source)
    }
}

/// Strictly increasing positions: document order, each node once.
pub open spec fn in_document_order(r: Seq<usize>) -> bool {
    forall|a: int, b: int| 0 <= a < b < r.len() ==> r[a] < r[b]
}

/// The selection of one outcome of matching, in the form `collect_matches`
/// returns it.
pub open spec fn is_selection(
    t: Seq<NodeView>,
    x: int,
    include_self: bool,
    self_matched: bool,
    matched: Seq<nipper::NodeId>,
    r: Seq<usize>,
) -> bool {
    &&& forall|k: int|
        0 <= k < r.len() ==> selected(t, x, include_self, self_matched, matched, #[trigger] r[k] as int)
    &&& forall|j: int| selected(t, x, include_self, self_matched, matched, j) ==> r.contains(j as usize)
    &&& in_document_order(r)
}

proof fn lemma_ordered_same_members(a: Seq<usize>, b: Seq<usize>)
    requires
        in_document_order(a),
        in_document_order(b),
        forall|v: usize| a.contains(v) <==> b.contains(v),
    ensures
        a == b,
    decreases a.len(),
{
    if a.len() == 0 {
        if b.len() > 0 {
            assert(b.contains(b[0]));
        }
        assert(a =~= b);
    } else {
        assert(a.contains(a[0]));
        assert(b.len() > 0);
        assert(b.contains(b[0]));
        assert(a[0] == b[0]) by {
            let k = choose|k: int| 0 <= k < b.len() && b[k] == a[0];
            let m = choose|m: int| 0 <= m < a.len() && a[m] == b[0];
            if k > 0 {
                assert(b[0] < b[k]);
            }
            if m > 0 {
                assert(a[0] < a[m]);
            }
        }
        let a1 = a.drop_first();
        let b1 = b.drop_first();
        assert forall|v: usize| a1.contains(v) implies b1.contains(v) by {
            let i = choose|i: int| 0 <= i < a1.len() && a1[i] == v;
            assert(a[i + 1] == v);
            assert(a.contains(v));
            let k = choose|k: int| 0 <= k < b.len() && b[k] == v;
            assert(a[0] < a[i + 1]);
            assert(k != 0);
            assert(b1[k - 1] == v);
        }
        assert forall|v: usize| b1.contains(v) implies a1.contains(v) by {
            let i = choose|i: int| 0 <= i < b1.len() && b1[i] == v;
            assert(b[i + 1] == v);
            assert(b.contains(v));
            let k = choose|k: int| 0 <= k < a.len() && a[k] == v;
            assert(b[0] < b[i + 1]);
            assert(k != 0);
            assert(a1[k - 1] == v);
        }
        lemma_ordered_same_members(a1, b1);
        assert(a =~= b) by {
            assert forall|i: int| 0 <= i < a.len() implies a[i] == b[i] by {
                if i > 0 {
                    assert(a[i] == a1[i - 1]);
                }
            }
        }
    }
}

/// The same outcome of matching gives the same selection: a sequence in
/// document order is determined by the nodes it holds, so repeated
/// selections with one compiled selector on one scope agree whenever the
/// matcher does.
pub proof fn lemma_selection_unique(
    t: Seq<NodeView>,
    x: int,
    include_self: bool,
    self_matched: bool,
    matched: Seq<nipper::NodeId>,
    r1: Seq<usize>,
    r2: Seq<usize>,
)
    requires
        is_selection(t, x, include_self, self_matched, matched, r1),
        is_selection(t, x, include_self, self_matched, matched, r2),
    ensures
        r1 == r2,
{
    assert forall|v: usize| r1.contains(v) implies r2.contains(v) by {
        let k = choose|k: int| 0 <= k < r1.len() && r1[k] == v;
        assert(selected(t, x, include_self, self_matched, matched, r1[k] as int));
    }
    assert forall|v: usize| r2.contains(v) implies r1.contains(v) by {
        let k = choose|k: int| 0 <= k < r2.len() && r2[k] == v;
        assert(selected(t, x, include_self, self_matched, matched, r2[k] as int));
    }
    lemma_ordered_same_members(r1, r2);
}

/// The root of a document laid out from a parsed tree is determined by that
/// tree alone: two loads of one markup agree on the root's kind, name, text
/// and attributes.
pub proof fn lemma_root_determined(t1: Seq<NodeView>, t2: Seq<NodeView>, d: nipper::Document)
    requires
        well_formed(t1),
        well_formed(t2),
        t1[0].source == root_of(d),
        t2[0].source == root_of(d),
        t1[0] == node_from(d, t1[0].source, t1[0].depth),
        t2[0] == node_from(d, t2[0].source, t2[0].depth),
    ensures
        t1[0] == t2[0],
{
}

/// Selectors compiled from one text select the same nodes on one scope.
pub proof fn lemma_same_text_same_selection(
    t: Seq<NodeView>,
    x: int,
    d: nipper::Document,
    s1: Selector,
    s2: Selector,
    r1: Seq<usize>,
    r2: Seq<usize>,
)
    requires
        s1.text() == s2.text(),
        is_selection(
            t,
            x,
            true,
            matches_node(d, s1.compiled())[t[x].source],
            matching_below(d, s1.compiled())[t[x].source],
            r1,
        ),
        is_selection(
            t,
            x,
            true,
            matches_node(d, s2.compiled())[t[x].source],
            matching_below(d, s2.compiled())[t[x].source],
            r2,
        ),
    ensures
        r1 == r2,
{
    lemma_selection_unique(
        t,
        x,
        true,
        matches_node(d, s1.compiled())[t[x].source],
        matching_below(d, s1.compiled())[t[x].source],
        r1,
        r2,
    );
}

fn contains_node(matched: &Vec<nipper::NodeId>, id: &nipper::NodeId) -> (r: bool)
    ensures
        r == matched@.contains(*id),
{
    let mut k: usize = 0;
    while k < matched.len()
        invariant
            k <= matched@.len(),
            forall|i: int| 0 <= i < k ==> matched@[i] != *id,
        decreases matched.len() - k,
    {
        if same_node(&matched[k], id) {
            return true;
        }
        k = k + 1;
    }
    false
}

/// What the arena keeps of node `id` of nipper's tree `d`, at `depth`.
pub open spec fn node_from(d: nipper::Document, id: nipper::NodeId, depth: nat) -> NodeView {
    if text_flags(d)[id] {
        NodeView {
            depth,
            kind: NodeKind::Text,
            name: Seq::empty(),
            text: node_texts(d)[id],
            attrs: Seq::empty(),
            source: id,
        }
    } else {
        match local_names(d)[id] {
            Some(name) => NodeView {
                depth,
                kind: NodeKind::Element,
                name,
                text: Seq::empty(),
                attrs: attr_lists(d)[id],
                source: id,
            },
            None => NodeView {
                depth,
                kind: NodeKind::Other,
                name: Seq::empty(),
                text: Seq::empty(),
                attrs: Seq::empty(),
                source: id,
            },
        }
    }
}

/// Reads what the arena keeps of one node of nipper's tree.
fn read_entry(html: &nipper::Document, id: nipper::NodeId, depth: usize) -> (e: Entry)
    requires
        node_ids(*html).contains(id),
    ensures
        e.view() == node_from(*html, id, depth as nat),
        e.depth == depth,
        e.source == id,
        e.tidy(),
{
    let text_node = is_text_node(html, &id).unwrap();
    let name = element_name(html, &id).unwrap();
    let ghost empty_attrs = Seq::<(String, String)>::empty().map_values(
        |p: (String, String)| (p.0@, p.1@),
    );
    assert(empty_attrs =~= Seq::empty());
    if text_node {
        let text = node_text(html, &id).unwrap();
        Entry { depth, kind: NodeKind::Text, name: String::new(), text, attrs: Vec::new(), source: id }
    } else {
        match name {
            Some(name) => {
                let attrs = node_attrs(html, &id).unwrap();
                Entry { depth, kind: NodeKind::Element, name, text: String::new(), attrs, source: id }
            },
            None => Entry {
                depth,
                kind: NodeKind::Other,
                name: String::new(),
                text: String::new(),
                attrs: Vec::new(),
                source: id,
            },
        }
    }
}

impl DocumentStore {
    /// The arena is a well-formed tree, and each of its nodes is what
    /// nipper's tree holds for a node of that tree, the first its root.
    #[verifier::type_invariant]
    closed spec fn inv(&self) -> bool {
        &&& well_formed(self@)
        &&& self@[0].source == root_of(self.html)
        &&& forall|i: int|
            0 <= i < self@.len() ==> node_ids(self.html).contains(#[trigger] self@[i].source)
                && self@[i] == node_from(self.html, self@[i].source, self@[i].depth)
    }

    /// nipper's parsed tree, which the arena reads.
    pub closed spec fn parsed(&self) -> nipper::Document {
        self.html
    }

    /// Parses `markup` and lays its tree out in document order. The walk
    /// keeps a stack of pending nodes and pushes each node's children in
    /// reverse, so that they come off the stack left to right. Each node
    /// holds what the parsed tree holds for it; the first is its root.
    /// The only failure is a tree with more nodes than positions.
    #[verifier::rlimit(60)]
    pub fn load(markup: &str) -> (r: Result<DocumentStore, Error>)
        ensures
            match r {
                Ok(d) => {
                    &&& d.parsed() == parse_of(markup@)
                    &&& well_formed(d@)
                    &&& d@[0].source == root_of(d.parsed())
                    &&& forall|i: int|
                        0 <= i < d@.len() ==> node_ids(d.parsed()).contains(#[trigger] d@[i].source)
                            && d@[i] == node_from(d.parsed(), d@[i].source, d@[i].depth)
                },
                Err(e) => e == Error::Capacity,
            },
    {
        let html = parse_document(markup);
        let root = root_id(&html);
        let mut nodes: Vec<Entry> = Vec::new();
        let mut stack: Vec<(nipper::NodeId, usize)> = Vec::new();
        stack.push((root, 0));
        while stack.len() > 0
            invariant
                nodes@.len() == 0 ==> stack@.len() == 1 && stack@[0].1 == 0 && stack@[0].0 == root,
                nodes@.len() > 0 ==> nodes@[0].depth == 0 && nodes@[0].source == root_of(html),
                root == root_of(html),
                forall|i: int|
                    0 < i < nodes@.len() ==> 1 <= #[trigger] nodes@[i].depth <= nodes@[i
                        - 1].depth + 1,
                forall|i: int|
                    0 <= i < nodes@.len() ==> (#[trigger] nodes@[i]).tidy() && node_ids(
                        html,
                    ).contains(nodes@[i].source) && nodes@[i].view() == node_from(
                        html,
                        nodes@[i].source,
                        nodes@[i].depth as nat,
                    ),
                forall|k: int|
                    0 <= k < stack@.len() ==> #[trigger] stack@[k].1 <= nodes@.len() && (
                    nodes@.len() > 0 ==> stack@[k].1 >= 1) && node_ids(html).contains(stack@[k].0),
                forall|k: int|
                    0 <= k < stack@.len() - 1 ==> #[trigger] stack@[k].1 <= stack@[k + 1].1,
                nodes@.len() > 0 && stack@.len() > 0 ==> stack@.last().1 <= nodes@.last().depth
                    + 1,
            decreases usize::MAX - nodes@.len(),
        {
            if nodes.len() == usize::MAX {
                return Err(Error::Capacity);
            }
            let (id, depth) = stack.pop().unwrap();
            let entry = read_entry(&html, id, depth);
            let kids = children_of(&html, &id).unwrap();
            let child_depth = depth + 1;
            nodes.push(entry);
            let mut k: usize = kids.len();
            while k > 0
                invariant
                    k <= kids@.len(),
                    depth < nodes@.len(),
                    child_depth == depth + 1,
                    nodes@.last().depth == depth,
                    nodes@.len() > 0,
                    forall|j: int|
                        0 <= j < kids@.len() ==> node_ids(html).contains(#[trigger] kids@[j]),
                    forall|j: int|
                        0 <= j < stack@.len() ==> #[trigger] stack@[j].1 <= nodes@.len()
                            && stack@[j].1 >= 1 && node_ids(html).contains(stack@[j].0),
                    forall|j: int|
                        0 <= j < stack@.len() - 1 ==> #[trigger] stack@[j].1 <= stack@[j + 1].1,
                    stack@.len() > 0 ==> stack@.last().1 <= depth + 1,
                decreases k,
            {
                k = k - 1;
                assert(node_ids(html).contains(kids@[k as int]));
                stack.push((kids[k], child_depth));
            }
        }
        let doc = DocumentStore { html, nodes };
        assert forall|i: int| 0 < i < doc@.len() implies 1 <= #[trigger] doc@[i].depth
            <= doc@[i - 1].depth + 1 by {
            assert(doc@[i] == doc.nodes@[i].view());
            assert(doc@[i - 1] == doc.nodes@[i - 1].view());
        }
        assert forall|i: int| 0 <= i < doc@.len() && (#[trigger] doc@[i]).kind
            != NodeKind::Element implies doc@[i].name.len() == 0 && doc@[i].attrs.len() == 0 by {
            assert(doc.nodes@[i].tidy());
        }
        assert forall|i: int| 0 <= i < doc@.len() && (#[trigger] doc@[i]).kind
            != NodeKind::Text implies doc@[i].text.len() == 0 by {
            assert(doc.nodes@[i].tidy());
        }
        assert forall|i: int| 0 <= i < doc@.len() implies node_ids(doc.html).contains(
            #[trigger] doc@[i].source,
        ) && doc@[i] == node_from(doc.html, doc@[i].source, doc@[i].depth) by {
            assert(doc@[i] == doc.nodes@[i].view());
        }
        assert(doc@[0] == doc.nodes@[0].view());
        Ok(doc)
    }
    /// The number of nodes.
    pub fn len(&self) -> (r: usize)
        ensures
            r == self@.len(),
    {
        self.nodes.len()
    }

    /// The root node's position.
    pub fn root(&self) -> (r: usize)
        ensures
            well_formed(self@),
            r == 0,
            r < self@.len(),
            subtree_end(self@, r as int) == self@.len(),
    {
        proof {
            use_type_invariant(self);
            lemma_root_spans_document(self@);
        }
        0
    }

    /// Whether `id` names a node of this document.
    pub fn contains(&self, id: usize) -> (r: bool)
        ensures
            r == (id < self@.len()),
    {
        id < self.nodes.len()
    }

    /// The element's local name; empty for any other node.
    pub fn node_name(&self, id: usize) -> (r: String)
        requires
            id < self@.len(),
        ensures
            r@ == self@[id as int].name,
    {
        self.nodes[id].name.clone()
    }

    pub fn is_text(&self, id: usize) -> (r: bool)
        requires
            id < self@.len(),
        ensures
            r == (self@[id as int].kind == NodeKind::Text),
    {
        self.nodes[id].kind == NodeKind::Text
    }

    /// The node's own text when it is a text node.
    pub fn text_content(&self, id: usize) -> (r: Option<String>)
        requires
            id < self@.len(),
        ensures
            opt_chars(r) == if self@[id as int].kind == NodeKind::Text {
                Some(self@[id as int].text)
            } else {
                None
            },
    {
        if self.nodes[id].kind == NodeKind::Text {
            Some(self.nodes[id].text.clone())
        } else {
            None
        }
    }

    /// The value of the node's first attribute named `name`.
    pub fn attr(&self, id: usize, name: &str) -> (r: Option<String>)
        requires
            id < self@.len(),
        ensures
            opt_chars(r) == attr_value(self@[id as int].attrs, name@),
    {
        let key = name.to_owned();
        let attrs = &self.nodes[id].attrs;
        let ghost t = self@[id as int].attrs;
        assert(t == attrs@.map_values(|p: (String, String)| (p.0@, p.1@)));
        let mut k: usize = 0;
        while k < attrs.len()
            invariant
                k <= attrs@.len(),
                id < self@.len(),
                t == self@[id as int].attrs,
                t.len() == attrs@.len(),
                t == attrs@.map_values(|p: (String, String)| (p.0@, p.1@)),
                attr_from(t, name@, 0) == attr_from(t, name@, k as int),
                key@ == name@,
            decreases attrs.len() - k,
        {
            assert(t[k as int] == (attrs@[k as int].0@, attrs@[k as int].1@));
            if attrs[k].0 == key {
                return Some(attrs[k].1.clone());
            }
            k = k + 1;
        }
        None
    }

    /// The node's `href` attribute.
    pub fn href(&self, id: usize) -> (r: Option<String>)
        requires
            id < self@.len(),
        ensures
            opt_chars(r) == attr_value(self@[id as int].attrs, "href"@),
    {
        self.attr(id, "href")
    }

    /// The node's `class` attribute split on ASCII whitespace.
    pub fn class_list(&self, id: usize) -> (r: Vec<String>)
        requires
            id < self@.len(),
        ensures
            string_views(r@) == classes_of(self@, id as int),
    {
        match self.attr(id, "class") {
            Some(v) => split_ascii_whitespace(v.as_str()),
            None => {
                let r: Vec<String> = Vec::new();
                assert(string_views(r@) =~= Seq::<Seq<char>>::empty());
                r
            },
        }
    }

    /// The node and its descendants serialized as markup.
    pub fn serialized_html(&self, id: usize) -> (r: Result<String, Error>)
        requires
            id < self@.len(),
        ensures
            r matches Ok(s) && s@ == node_markups(self.parsed())[self@[id as int].source],
    {
        proof {
            use_type_invariant(self);
        }
        assert(self@[id as int] == self.nodes@[id as int].view());
        assert(node_ids(self.html).contains(self@[id as int].source));
        match node_html(&self.html, &self.nodes[id].source) {
            Some(s) => Ok(s),
            None => Err(Error::Lookup),
        }
    }

    /// One past the last position of the subtree of `id`.
    pub fn subtree_end(&self, id: usize) -> (r: usize)
        requires
            id < self@.len(),
        ensures
            r == subtree_end(self@, id as int),
            id < r <= self@.len(),
    {
        let n = self.nodes.len();
        let d = self.nodes[id].depth;
        let mut k: usize = id + 1;
        while k < n && self.nodes[k].depth > d
            invariant
                n == self@.len(),
                id < k <= n,
                d == self@[id as int].depth,
                scan_end(self@, id as int, id + 1) == scan_end(self@, id as int, k as int),
            decreases n - k,
        {
            assert(self@[k as int].depth == self.nodes@[k as int].depth);
            k = k + 1;
        }
        assert(k < n ==> self@[k as int].depth == self.nodes@[k as int].depth);
        k
    }

    /// The subtree of `id` in pre-order: the node, then its descendants,
    /// children left to right, each child's subtree before the next child.
    pub fn walk(&self, id: usize) -> (r: Vec<usize>)
        requires
            id < self@.len(),
        ensures
            r@.len() == subtree_end(self@, id as int) - id,
            forall|k: int| 0 <= k < r@.len() ==> #[trigger] r@[k] == id + k,
    {
        let e = self.subtree_end(id);
        let mut r: Vec<usize> = Vec::new();
        let mut j: usize = id;
        while j < e
            invariant
                id <= j <= e,
                r@.len() == j - id,
                forall|k: int| 0 <= k < r@.len() ==> #[trigger] r@[k] == id + k,
            decreases e - j,
        {
            r.push(j);
            j = j + 1;
        }
        r
    }

    /// The text of every text node of the subtree of `id`, in pre-order,
    /// with no separator.
    pub fn full_text(&self, id: usize) -> (r: String)
        requires
            id < self@.len(),
        ensures
            r@ == full_text_of(self@, id as int),
    {
        let e = self.subtree_end(id);
        let mut r = String::new();
        let mut j: usize = id;
        while j < e
            invariant
                id <= j <= e,
                e <= self@.len(),
                r@ == texts(self@, id as int, j as int),
            decreases e - j,
        {
            assert(self@[j as int] == self.nodes@[j as int].view());
            if self.nodes[j].kind == NodeKind::Text {
                r.append(self.nodes[j].text.as_str());
            }
            assert(r@ =~= texts(self@, id as int, j + 1));
            j = j + 1;
        }
        r
    }

    /// Given what the selector matched, the selected nodes of the subtree of
    /// `id` in document order, each once: `id` itself when `include_self`
    /// and `self_matched`, and each descendant whose identifier is among
    /// `matched`. Nodes outside the subtree are never selected.
    pub fn collect_matches(
        &self,
        id: usize,
        include_self: bool,
        self_matched: bool,
        matched: &Vec<nipper::NodeId>,
    ) -> (r: Vec<usize>)
        requires
            id < self@.len(),
        ensures
            is_selection(self@, id as int, include_self, self_matched, matched@, r@),
    {
        let e = self.subtree_end(id);
        proof {
            assert forall|j: int| in_subtree(self@, id as int, j) <==> id <= j < e by {
                lemma_subtree_is_range(self@, id as int, j);
            }
        }
        let mut r: Vec<usize> = Vec::new();
        if include_self && self_matched {
            r.push(id);
            assert(r@[0] == id);
        }
        let mut j: usize = id + 1;
        while j < e
            invariant
                id < j <= e,
                e <= self@.len(),
                forall|i: int| in_subtree(self@, id as int, i) <==> id <= i < e,
                forall|k: int|
                    0 <= k < r@.len() ==> selected(
                        self@,
                        id as int,
                        include_self,
                        self_matched,
                        matched@,
                        #[trigger] r@[k] as int,
                    ) && r@[k] < j,
                forall|i: int|
                    id <= i < j && selected(self@, id as int, include_self, self_matched, matched@, i)
                        ==> r@.contains(i as usize),
                in_document_order(r@),
            decreases e - j,
        {
            assert(self@[j as int] == self.nodes@[j as int].view());
            if contains_node(matched, &self.nodes[j].source) {
                let ghost before = r@;
                r.push(j);
                assert(r@[r@.len() - 1] == j);
                assert forall|i: int|
                    id <= i < j + 1 && selected(
                        self@,
                        id as int,
                        include_self,
                        self_matched,
                        matched@,
                        i,
                    ) implies r@.contains(i as usize) by {
                    if i < j {
                        let k = choose|k: int| 0 <= k < before.len() && before[k] == i as usize;
                        assert(r@[k] == i as usize);
                    }
                }
            }
            j = j + 1;
        }
        r
    }

    /// The nodes of the subtree of `id` that `selector` matches, in document
    /// order and each once; `id` itself may match only when `include_self`.
    pub fn select_within(&self, id: usize, selector: &Selector, include_self: bool) -> (r: Result<
        Vec<usize>,
        Error,
    >)
        requires
            id < self@.len(),
        ensures
            r matches Ok(v) && is_selection(
                self@,
                id as int,
                include_self,
                matches_node(self.parsed(), selector.compiled())[self@[id as int].source],
                matching_below(self.parsed(), selector.compiled())[self@[id as int].source],
                v@,
            ),
    {
        proof {
            use_type_invariant(self);
        }
        assert(self@[id as int] == self.nodes@[id as int].view());
        assert(node_ids(self.html).contains(self@[id as int].source));
        let source = &self.nodes[id].source;
        let self_matched = match node_matches(&self.html, source, selector.matcher()) {
            Some(b) => b,
            None => return Err(Error::Lookup),
        };
        match matching_descendants(&self.html, source, selector.matcher()) {
            Some(matched) => Ok(self.collect_matches(id, include_self, self_matched, &matched)),
            None => Err(Error::Lookup),
        }
    }

    /// The nodes of the subtree of `id`, `id` included, that `selector`
    /// matches, in document order and each once; nodes outside the subtree
    /// are never returned.
    pub fn select(&self, id: usize, selector: &Selector) -> (r: Result<Vec<usize>, Error>)
        requires
            id < self@.len(),
        ensures
            r matches Ok(v) && is_selection(
                self@,
                id as int,
                true,
                matches_node(self.parsed(), selector.compiled())[self@[id as int].source],
                matching_below(self.parsed(), selector.compiled())[self@[id as int].source],
                v@,
            ),
            r matches Ok(v) && in_document_order(v@) && forall|k: int|
                0 <= k < v@.len() ==> in_subtree(self@, id as int, #[trigger] v@[k] as int),
    {
        let r = self.select_within(id, selector, true);
        proof {
            if let Ok(v) = &r {
                assert forall|k: int| 0 <= k < v@.len() implies in_subtree(
                    self@,
                    id as int,
                    #[trigger] v@[k] as int,
                ) by {
                    assert(selected(
                        self@,
                        id as int,
                        true,
                        matches_node(self.parsed(), selector.compiled())[self@[id as int].source],
                        matching_below(self.parsed(), selector.compiled())[self@[id as int].source],
                        v@[k] as int,
                    ));
                }
            }
        }
        r
    }
}

} // verus!
