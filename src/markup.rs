//! The boundary with nipper: its parser, its tree navigation, its CSS
//! selector engine and its serializer, each behind one trusted item. What
//! nipper's parsed tree holds is named per document and node identifier;
//! every query of a node of the tree answers `Some`.
use vstd::prelude::*;
use nipper::{Document, Matcher, NodeId, Selection};

verus! {

#[verifier::external_type_specification]
#[verifier::external_body]
pub struct ExDocument(nipper::Document);

#[verifier::external_type_specification]
#[verifier::external_body]
pub struct ExNodeId(nipper::NodeId);

#[verifier::external_type_specification]
#[verifier::external_body]
pub struct ExMatcher(nipper::Matcher);

/// The tree that html5ever's parse builds from a markup text.
pub uninterp spec fn parse_of(markup: Seq<char>) -> nipper::Document;

/// The identifiers of the nodes that a parsed tree holds.
pub uninterp spec fn node_ids(d: nipper::Document) -> Set<nipper::NodeId>;

/// The document node of a parsed tree.
pub uninterp spec fn root_of(d: nipper::Document) -> nipper::NodeId;

/// The children of each node of a parsed tree, in order.
pub uninterp spec fn child_lists(d: nipper::Document) -> Map<nipper::NodeId, Seq<nipper::NodeId>>;

/// Which nodes of a parsed tree are text nodes.
pub uninterp spec fn text_flags(d: nipper::Document) -> Map<nipper::NodeId, bool>;

/// The local name of each element of a parsed tree; `None` for other nodes.
pub uninterp spec fn local_names(d: nipper::Document) -> Map<nipper::NodeId, Option<Seq<char>>>;

/// What `nipper::Node::text` gives for each node of a parsed tree.
pub uninterp spec fn node_texts(d: nipper::Document) -> Map<nipper::NodeId, Seq<char>>;

/// The attributes of each node of a parsed tree, as (local name, value).
pub uninterp spec fn attr_lists(d: nipper::Document) -> Map<
    nipper::NodeId,
    Seq<(Seq<char>, Seq<char>)>,
>;

/// Each node of a parsed tree serialized with its descendants.
pub uninterp spec fn node_markups(d: nipper::Document) -> Map<nipper::NodeId, Seq<char>>;

/// Whether a text is a CSS selector list.
pub uninterp spec fn css_valid(selector: Seq<char>) -> bool;

/// The matcher that a valid selector text compiles to.
pub uninterp spec fn compiled_from(selector: Seq<char>) -> nipper::Matcher;

/// Whether a compiled selector matches a node of a parsed tree.
pub uninterp spec fn matches_node(d: nipper::Document, m: nipper::Matcher) -> Map<
    nipper::NodeId,
    bool,
>;

/// The descendants of a node of a parsed tree that a compiled selector
/// matches.
pub uninterp spec fn matching_below(d: nipper::Document, m: nipper::Matcher) -> Map<
    nipper::NodeId,
    Seq<nipper::NodeId>,
>;

/// Relies on `nipper::Document::from(&str)`: html5ever's lenient parse,
/// which accepts every string, depends on the text alone, and whose tree
/// always holds its root.
#[verifier::external_body]
pub(crate) fn parse_document(markup: &str) -> (r: Document)
    ensures
        r == parse_of(markup@),
        node_ids(r).contains(root_of(r)),
{
    Document::from(markup)
}

/// Relies on `nipper::Document::root`: the identifier of the document node.
#[verifier::external_body]
pub(crate) fn root_id(doc: &Document) -> (r: NodeId)
    ensures
        r == root_of(*doc),
{
    doc.root().id
}

/// Relies on `nipper::NodeId`'s derived `PartialEq`, which compares the
/// identifiers' single index field.
#[verifier::external_body]
pub(crate) fn same_node(a: &NodeId, b: &NodeId) -> (r: bool)
    ensures
        r == (*a == *b),
{
    a == b
}

/// Relies on `Tree::get` (bounds-checked) and `nipper::NodeRef::children`:
/// the children of a node of the tree, in order, each a node of the tree;
/// `None` when the identifier is not in the tree.
#[verifier::external_body]
pub(crate) fn children_of(doc: &Document, id: &NodeId) -> (r: Option<Vec<NodeId>>)
    ensures
        match r {
            Some(v) => {
                &&& node_ids(*doc).contains(*id)
                &&& v@ == child_lists(*doc)[*id]
                &&& forall|k: int| 0 <= k < v@.len() ==> node_ids(*doc).contains(#[trigger] v@[k])
            },
            None => !node_ids(*doc).contains(*id),
        },
{
    doc.root().tree.get(id).map(|n| n.children().into_iter().map(|c| c.id).collect())
}

/// Relies on `nipper::Node::is_text`; `None` when the identifier is not in
/// the tree.
#[verifier::external_body]
pub(crate) fn is_text_node(doc: &Document, id: &NodeId) -> (r: Option<bool>)
    ensures
        r == if node_ids(*doc).contains(*id) {
            Some(text_flags(*doc)[*id])
        } else {
            None
        },
{
    doc.root().tree.get(id).map(|n| n.is_text())
}

/// Relies on `nipper::Node::node_name`: the local name of an element, and
/// `None` inside for any other node; `None` outside when the identifier is
/// not in the tree.
#[verifier::external_body]
pub(crate) fn element_name(doc: &Document, id: &NodeId) -> (r: Option<Option<String>>)
    ensures
        match r {
            Some(Some(s)) => node_ids(*doc).contains(*id) && local_names(*doc)[*id] == Some(s@),
            Some(None) => node_ids(*doc).contains(*id) && local_names(*doc)[*id] is None,
            None => !node_ids(*doc).contains(*id),
        },
{
    doc.root().tree.get(id).map(|n| n.node_name().map(|t| t.to_string()))
}

/// Relies on `nipper::Node::text`: for a text node, its own contents; `None`
/// when the identifier is not in the tree.
#[verifier::external_body]
pub(crate) fn node_text(doc: &Document, id: &NodeId) -> (r: Option<String>)
    ensures
        match r {
            Some(s) => node_ids(*doc).contains(*id) && node_texts(*doc)[*id] == s@,
            None => !node_ids(*doc).contains(*id),
        },
{
    doc.root().tree.get(id).map(|n| n.text().to_string())
}

/// Relies on `nipper::Node::attrs`: an element's attributes as (local name,
/// value) pairs, in order; `None` when the identifier is not in the tree.
#[verifier::external_body]
pub(crate) fn node_attrs(doc: &Document, id: &NodeId) -> (r: Option<Vec<(String, String)>>)
    ensures
        match r {
            Some(v) => node_ids(*doc).contains(*id) && v@.map_values(
                |p: (String, String)| (p.0@, p.1@),
            ) == attr_lists(*doc)[*id],
            None => !node_ids(*doc).contains(*id),
        },
{
    doc.root().tree.get(id).map(
        |n| n.attrs().into_iter().map(|a| (a.name.local.to_string(), a.value.to_string())).collect(),
    )
}

/// Relies on `nipper::Node::html`: the node and its descendants serialized
/// as markup; `None` when the identifier is not in the tree.
#[verifier::external_body]
pub(crate) fn node_html(doc: &Document, id: &NodeId) -> (r: Option<String>)
    ensures
        match r {
            Some(s) => node_ids(*doc).contains(*id) && node_markups(*doc)[*id] == s@,
            None => !node_ids(*doc).contains(*id),
        },
{
    doc.root().tree.get(id).map(|n| n.html().to_string())
}

/// Relies on `nipper::Matcher::new`: compiles a CSS selector list, `None`
/// when the text is not one; the outcome depends on the text alone.
#[verifier::external_body]
pub(crate) fn compile_matcher(selector: &str) -> (r: Option<Matcher>)
    ensures
        r is Some == css_valid(selector@),
        r matches Some(m) ==> m == compiled_from(selector@),
{
    Matcher::new(selector).ok()
}

/// Relies on `nipper::Selection::is_matcher` on the one-node selection:
/// whether the selector matches the node itself; `None` when the identifier
/// is not in the tree.
#[verifier::external_body]
pub(crate) fn node_matches(doc: &Document, id: &NodeId, matcher: &Matcher) -> (r: Option<bool>)
    ensures
        r == if node_ids(*doc).contains(*id) {
            Some(matches_node(*doc, *matcher)[*id])
        } else {
            None
        },
{
    doc.root().tree.get(id).map(|n| Selection::from(n).is_matcher(matcher))
}

/// Relies on `nipper::Selection::select_matcher` on the one-node selection:
/// the descendants of the node that the selector matches; `None` when the
/// identifier is not in the tree.
#[verifier::external_body]
pub(crate) fn matching_descendants(doc: &Document, id: &NodeId, matcher: &Matcher) -> (r: Option<
    Vec<NodeId>,
>)
    ensures
        match r {
            Some(v) => node_ids(*doc).contains(*id) && v@ == matching_below(*doc, *matcher)[*id],
            None => !node_ids(*doc).contains(*id),
        },
{
    doc.root().tree.get(id).map(
        |n| Selection::from(n).select_matcher(matcher).nodes().iter().map(|m| m.id).collect(),
    )
}

} // verus!
