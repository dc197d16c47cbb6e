//! From the text of a document to its tree of nodes.
//!
//! The markup parser lists the nodes of a document in document order; the
//! tree is assembled from that listing.

use crate::errors::{outcome, Error, ErrorView};
use crate::node::{
    Namespace, NamespaceView, Node, NodeAttribute, NodeAttributeView, NodeKind, NodeView,
};
use crate::text::{owned_copy, text_of};
use roxmltree::Error as XmlFault;
use vstd::prelude::*;

verus! {

/// One node of a parsed document, as the markup parser lists it: in document
/// order, each node followed by everything below it.
///
/// `span` is the number of nodes that the node and everything below it take
/// up in the listing.
#[derive(Debug, PartialEq, Eq)]
pub struct RawNode {
    pub is_root: bool,
    pub is_element: bool,
    pub span: usize,
    pub name: String,
    pub text: Option<String>,
    pub attributes: Vec<NodeAttribute>,
    pub namespaces: Vec<Namespace>,
}

/// The view of a [`RawNode`]: the same parts, with sequences of characters for
/// strings and mathematical sequences for vectors.
pub struct RawNodeView {
    pub is_root: bool,
    pub is_element: bool,
    pub span: int,
    pub name: Seq<char>,
    pub text: Option<Seq<char>>,
    pub attributes: Seq<NodeAttributeView>,
    pub namespaces: Seq<NamespaceView>,
}

impl View for RawNode {
    type V = RawNodeView;

    open spec fn view(&self) -> RawNodeView {
        RawNodeView {
            is_root: self.is_root,
            is_element: self.is_element,
            span: self.span as int,
            name: self.name@,
            text: text_of(self.text),
            attributes: self.attributes@.map_values(|a: NodeAttribute| a@),
            namespaces: self.namespaces@.map_values(|s: Namespace| s@),
        }
    }
}

/// The nodes of a listing, by their views.
pub open spec fn listing_view(nodes: Seq<RawNode>) -> Seq<RawNodeView> {
    nodes.map_values(|n: RawNode| n@)
}

/// The listing that `roxmltree` makes of `text`, as `list_nodes` copies
/// it; `None` where `roxmltree` refuses `text`.
pub uninterp spec fn xml_listing(text: Seq<char>) -> Option<Seq<RawNodeView>>;

/// `roxmltree::Document::parse`, followed by a copy of what each node of
/// `Document::descendants` holds: whether it is the root or an element, how
/// many nodes `Node::descendants` counts from it, the local part of
/// `Node::tag_name`, `Node::text`, of `Node::attributes` each item's
/// namespace, local name and value, and of `Node::namespaces` each item's
/// prefix and URI. The contract only names the outcome: the same text gives
/// the same listing or the same refusal.
#[verifier::external_body]
fn list_nodes(text: &str) -> (r: Result<Vec<RawNode>, XmlFault>)
    ensures
        match r {
            Ok(nodes) => xml_listing(text@) == Some(listing_view(nodes@)),
            Err(_) => xml_listing(text@) is None,
        },
{
    Ok(roxmltree::Document::parse(text)?.descendants().map(|n| RawNode {
        is_root: n.is_root(),
        is_element: n.is_element(),
        span: n.descendants().len(),
        name: n.tag_name().name().to_owned(),
        text: n.text().map(str::to_owned),
        attributes: n.attributes().map(|a| NodeAttribute {
            namespace: a.namespace().map(str::to_owned),
            name: a.name().to_owned(),
            value: a.value().to_owned()
        }).collect(),
        namespaces: n.namespaces().map(|s| Namespace {
            prefix: s.name().map(str::to_owned), uri: s.uri().to_owned()
        }).collect()
    }).collect())
}

/// The kind of a listed node.
pub open spec fn kind_of(raw: RawNodeView) -> NodeKind {
    if raw.is_root {
        NodeKind::Root
    } else if raw.is_element {
        NodeKind::Element
    } else {
        NodeKind::Other
    }
}

/// How many places of the listing the node at `at` and everything below it
/// take up, where nothing may reach to `limit`: its span, but at least the
/// node itself and at most what is left before `limit`.
pub open spec fn extent(listing: Seq<RawNodeView>, at: int, limit: int) -> int {
    let span = listing[at].span;
    if span < 1 {
        1
    } else if span > limit - at {
        limit - at
    } else {
        span
    }
}

/// The tree of the node at `at` of the listing, which ends before `limit`:
/// its children are the nodes listed after it, as far as its extent goes.
pub open spec fn tree_at(listing: Seq<RawNodeView>, at: int, limit: int) -> NodeView
    decreases limit - at, 0int,
{
    let raw = listing[at];
    NodeView {
        kind: kind_of(raw),
        name: raw.name,
        attributes: raw.attributes,
        namespaces: raw.namespaces,
        text: raw.text,
        children: if at < limit {
            trees_from(listing, at + 1, at + extent(listing, at, limit))
        } else {
            Seq::empty()
        },
    }
}

/// The trees of the nodes listed from `from` on and before `limit`, each
/// followed by the next one that is not below it.
pub open spec fn trees_from(listing: Seq<RawNodeView>, from: int, limit: int) -> Seq<NodeView>
    decreases limit - from, 1int,
{
    if from >= limit {
        Seq::empty()
    } else {
        seq![tree_at(listing, from, limit)] + trees_from(
            listing,
            from + extent(listing, from, limit),
            limit,
        )
    }
}

/// The document that a listing stands for: the tree of its first node. A
/// listing without nodes stands for none.
pub open spec fn tree_of(listing: Seq<RawNodeView>) -> Result<NodeView, ErrorView> {
    if listing.len() == 0 {
        Err(ErrorView::EmptyXml)
    } else {
        Ok(tree_at(listing, 0, listing.len() as int))
    }
}

/// How a node is listed, where it and everything below it take up `span`
/// places.
pub open spec fn listed(node: NodeView, span: int) -> RawNodeView {
    RawNodeView {
        is_root: node.kind == NodeKind::Root,
        is_element: node.kind == NodeKind::Element,
        span,
        name: node.name,
        text: node.text,
        attributes: node.attributes,
        namespaces: node.namespaces,
    }
}

/// The listing of a tree: the node, then what is below it.
pub open spec fn listing_of(node: NodeView) -> Seq<RawNodeView>
    decreases node, node.children.len() + 1,
{
    let below = listings_from(node, 0);
    seq![listed(node, 1 + below.len() as int)] + below
}

/// The listings of the children of `node` from position `from` on, one
/// after the other.
pub open spec fn listings_from(node: NodeView, from: int) -> Seq<RawNodeView>
    decreases node, node.children.len() - from,
{
    if from < 0 || from >= node.children.len() {
        Seq::empty()
    } else {
        listing_of(node.children[from]) + listings_from(node, from + 1)
    }
}

/// Where the listing of a tree stands in a listing, the tree at that place
/// is that tree.
proof fn lemma_tree_at(listing: Seq<RawNodeView>, node: NodeView, at: int, limit: int)
    requires
        0 <= at,
        at + listing_of(node).len() <= limit <= listing.len(),
        listing.subrange(at, at + listing_of(node).len()) == listing_of(node),
    ensures
        tree_at(listing, at, limit) == node,
        extent(listing, at, limit) == listing_of(node).len(),
    decreases node, node.children.len() + 1,
{
    let own = listing_of(node);
    let below = listings_from(node, 0);
    let part = listing.subrange(at, at + own.len());
    assert(listing[at] == part[0]);
    assert(part[0] == listed(node, 1 + below.len() as int));
    assert(listing.subrange(at + 1, at + own.len()) =~= below) by {
        assert forall|i: int| 0 <= i < below.len() implies listing.subrange(
            at + 1,
            at + own.len(),
        )[i] == below[i] by {
            assert(listing[at + 1 + i] == part[1 + i]);
            assert(own[1 + i] == below[i]);
        }
    }
    lemma_trees_from(listing, node, 0, at + 1, at + own.len());
    assert(node.children.subrange(0, node.children.len() as int) =~= node.children);
}

/// Where the listings of the children of a node from position `k` on stand
/// in a listing, the trees listed there are those children.
proof fn lemma_trees_from(
    listing: Seq<RawNodeView>,
    node: NodeView,
    k: int,
    from: int,
    limit: int,
)
    requires
        0 <= k <= node.children.len(),
        0 <= from <= limit <= listing.len(),
        listing.subrange(from, limit) == listings_from(node, k),
    ensures
        trees_from(listing, from, limit) == node.children.subrange(
            k,
            node.children.len() as int,
        ),
    decreases node, node.children.len() - k,
{
    let rest = listings_from(node, k);
    assert(listing.subrange(from, limit).len() == rest.len());
    if k == node.children.len() {
        assert(trees_from(listing, from, limit) =~= node.children.subrange(
            k,
            node.children.len() as int,
        ));
    } else {
        let child = node.children[k];
        let own = listing_of(child);
        let after = listings_from(node, k + 1);
        assert(rest == own + after);
        assert(own.len() >= 1);
        assert(listing.subrange(from, from + own.len()) =~= own) by {
            assert forall|i: int| 0 <= i < own.len() implies listing.subrange(
                from,
                from + own.len(),
            )[i] == own[i] by {
                assert(listing[from + i] == listing.subrange(from, limit)[i]);
                assert(rest[i] == own[i]);
            }
        }
        assert(listing.subrange(from + own.len(), limit) =~= after) by {
            assert forall|i: int| 0 <= i < after.len() implies listing.subrange(
                from + own.len(),
                limit,
            )[i] == after[i] by {
                assert(listing[from + own.len() + i] == listing.subrange(from, limit)[own.len()
                    + i]);
                assert(rest[own.len() + i] == after[i]);
            }
        }
        lemma_tree_at(listing, child, from, limit);
        lemma_trees_from(listing, node, k + 1, from + own.len(), limit);
        assert(trees_from(listing, from, limit) =~= node.children.subrange(
            k,
            node.children.len() as int,
        ));
    }
}

/// Nothing is lost between a tree and its listing: the document that the
/// listing of a tree stands for is that tree.
pub proof fn lemma_listing_stands_for_its_tree(node: NodeView)
    ensures
        tree_of(listing_of(node)) == Ok::<NodeView, ErrorView>(node),
{
    let listing = listing_of(node);
    assert(listing.subrange(0, listing.len() as int) =~= listing);
    lemma_tree_at(listing, node, 0, listing.len() as int);
}

/// A copy of a list of attributes.
fn copy_attributes(attributes: &Vec<NodeAttribute>) -> (r: Vec<NodeAttribute>)
    ensures
        r@.map_values(|a: NodeAttribute| a@) == attributes@.map_values(|a: NodeAttribute| a@),
{
    let mut copy: Vec<NodeAttribute> = Vec::new();
    let mut i: usize = 0;
    while i < attributes.len()
        invariant
            i <= attributes.len(),
            copy@.len() == i,
            forall|j: int| 0 <= j < i ==> (#[trigger] copy@[j])@ == attributes@[j]@,
        decreases attributes.len() - i,
    {
        copy.push(
            NodeAttribute {
                namespace: owned_copy(&attributes[i].namespace),
                name: attributes[i].name.clone(),
                value: attributes[i].value.clone(),
            },
        );
        i += 1;
    }
    assert(copy@.map_values(|a: NodeAttribute| a@) =~= attributes@.map_values(
        |a: NodeAttribute| a@,
    ));
    copy
}

/// A copy of a list of namespaces.
fn copy_namespaces(namespaces: &Vec<Namespace>) -> (r: Vec<Namespace>)
    ensures
        r@.map_values(|s: Namespace| s@) == namespaces@.map_values(|s: Namespace| s@),
{
    let mut copy: Vec<Namespace> = Vec::new();
    let mut i: usize = 0;
    while i < namespaces.len()
        invariant
            i <= namespaces.len(),
            copy@.len() == i,
            forall|j: int| 0 <= j < i ==> (#[trigger] copy@[j])@ == namespaces@[j]@,
        decreases namespaces.len() - i,
    {
        copy.push(
            Namespace {
                prefix: owned_copy(&namespaces[i].prefix),
                uri: namespaces[i].uri.clone(),
            },
        );
        i += 1;
    }
    assert(copy@.map_values(|s: Namespace| s@) =~= namespaces@.map_values(|s: Namespace| s@));
    copy
}

/// The extent of the node at `at` of a listing that ends before `limit`.
fn extent_at(nodes: &Vec<RawNode>, at: usize, limit: usize) -> (r: usize)
    requires
        at < limit <= nodes.len(),
    ensures
        r == extent(listing_view(nodes@), at as int, limit as int),
        1 <= r <= limit - at,
{
    let span = nodes[at].span;
    if span < 1 {
        1
    } else if span > limit - at {
        limit - at
    } else {
        span
    }
}

/// Builds the tree of the node at `at` of a listing that ends before `limit`.
fn build(nodes: &Vec<RawNode>, at: usize, limit: usize) -> (r: Node)
    requires
        at < limit <= nodes.len(),
    ensures
        r@ == tree_at(listing_view(nodes@), at as int, limit as int),
    decreases limit - at,
{
    let ghost listing = listing_view(nodes@);
    let end = at + extent_at(nodes, at, limit);
    let mut children: Vec<Node> = Vec::new();
    let ghost mut built: Seq<NodeView> = Seq::empty();
    let mut next = at + 1;
    assert(built + trees_from(listing, next as int, end as int) =~= trees_from(
        listing,
        at + 1,
        end as int,
    ));
    while next < end
        invariant
            at < next <= end <= limit <= nodes.len(),
            listing == listing_view(nodes@),
            built.len() == children@.len(),
            forall|j: int| 0 <= j < children@.len() ==> (#[trigger] children@[j])@ == built[j],
            built + trees_from(listing, next as int, end as int) == trees_from(
                listing,
                at + 1,
                end as int,
            ),
        decreases end - next,
    {
        let child = build(nodes, next, end);
        let step = extent_at(nodes, next, end);
        assert((built + seq![child@]) + trees_from(listing, next + step, end as int) =~= built
            + (seq![child@] + trees_from(listing, next + step, end as int)));
        proof {
            built = built + seq![child@];
        }
        children.push(child);
        next = next + step;
    }
    assert(built + Seq::<NodeView>::empty() =~= built);
    let raw = &nodes[at];
    let kind = if raw.is_root {
        NodeKind::Root
    } else if raw.is_element {
        NodeKind::Element
    } else {
        NodeKind::Other
    };
    let node = Node {
        kind,
        name: raw.name.clone(),
        attributes: copy_attributes(&raw.attributes),
        namespaces: copy_namespaces(&raw.namespaces),
        text: owned_copy(&raw.text),
        children,
    };
    assert(node@.children =~= built);
    assert(raw@ == listing[at as int]);
    node
}

/// Builds the document that a listing stands for.
pub fn assemble(nodes: &Vec<RawNode>) -> (r: Result<Node, Error>)
    ensures
        outcome(r) == tree_of(listing_view(nodes@)),
{
    if nodes.len() == 0 {
        Err(Error::EmptyXml)
    } else {
        Ok(build(nodes, 0, nodes.len()))
    }
}

/// Parses the text of a document into its tree. The markup parser decides
/// whether the text is refused and what it lists; the tree is the one that
/// its listing stands for.
pub fn parse(text: &str) -> (r: Result<Node, Error>)
    ensures
        match xml_listing(text@) {
            None => r matches Err(e) && e@ == ErrorView::ParseXml,
            Some(listing) => outcome(r) == tree_of(listing),
        },
{
    match list_nodes(text) {
        Err(e) => Err(Error::ParseXml(e)),
        Ok(nodes) => assemble(&nodes),
    }
}

} // verus!
