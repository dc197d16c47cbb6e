//! The tree of a parsed document, as the declaration builders read it.

use crate::text::{chars_of, same_text, text_of};
use vstd::prelude::*;

verus! {

/// The kinds of node that the declaration builders tell apart.
#[derive(Debug, Clone, Copy, PartialEq, Eq, Structural)]
pub enum NodeKind {
    /// The node above the outermost element of a document.
    Root,
    /// An element: the only kind with a tag name, attributes and namespaces.
    Element,
    /// Text, a comment or a processing instruction.
    Other,
}

/// One attribute of an element: the URI of its namespace, if it is in one,
/// its local name and its value.
#[derive(Debug, Clone, PartialEq, Eq)]
pub struct NodeAttribute {
    pub namespace: Option<String>,
    pub name: String,
    pub value: String,
}

/// The view of a [`NodeAttribute`]: the same parts, with sequences of characters for
/// strings and mathematical sequences for vectors.
pub struct NodeAttributeView {
    pub namespace: Option<Seq<char>>,
    pub name: Seq<char>,
    pub value: Seq<char>,
}

impl View for NodeAttribute {
    type V = NodeAttributeView;

    open spec fn view(&self) -> NodeAttributeView {
        NodeAttributeView {
            namespace: text_of(self.namespace),
            name: self.name@,
            value: self.value@,
        }
    }
}

/// One namespace in scope at an element: its prefix, if it has one, and its URI.
#[derive(Debug, Clone, PartialEq, Eq)]
pub struct Namespace {
    pub prefix: Option<String>,
    pub uri: String,
}

/// The view of a [`Namespace`]: the same parts, with sequences of characters for
/// strings and mathematical sequences for vectors.
pub struct NamespaceView {
    pub prefix: Option<Seq<char>>,
    pub uri: Seq<char>,
}

impl View for Namespace {
    type V = NamespaceView;

    open spec fn view(&self) -> NamespaceView {
        NamespaceView {
            prefix: match self.prefix {
                Some(p) => Some(p@),
                None => None,
            },
            uri: self.uri@,
        }
    }
}

/// A node of a parsed document together with everything below it.
///
/// `name` is the local part of the tag name, empty for anything but an
/// element. `text` is the node's own text for text and comments, and the text
/// of the first child for an element whose first child is text.
#[derive(Debug, PartialEq, Eq)]
pub struct Node {
    pub kind: NodeKind,
    pub name: String,
    pub attributes: Vec<NodeAttribute>,
    pub namespaces: Vec<Namespace>,
    pub text: Option<String>,
    pub children: Vec<Node>,
}

/// The view of a [`Node`]: the same parts, with sequences of characters for
/// strings and mathematical sequences for vectors.
pub struct NodeView {
    pub kind: NodeKind,
    pub name: Seq<char>,
    pub attributes: Seq<NodeAttributeView>,
    pub namespaces: Seq<NamespaceView>,
    pub text: Option<Seq<char>>,
    pub children: Seq<NodeView>,
}

/// The view of a node: the views of its parts, children included.
pub open spec fn node_view(n: Node) -> NodeView
    decreases n,
{
    NodeView {
        kind: n.kind,
        name: n.name@,
        attributes: n.attributes@.map_values(|a: NodeAttribute| a@),
        namespaces: n.namespaces@.map_values(|s: Namespace| s@),
        text: match n.text {
            Some(t) => Some(t@),
            None => None,
        },
        children: Seq::new(
            n.children@.len(),
            |i: int|
                if 0 <= i < n.children@.len() {
                    node_view(n.children@[i])
                } else {
                    arbitrary()
                },
        ),
    }
}

impl View for Node {
    type V = NodeView;

    open spec fn view(&self) -> NodeView {
        node_view(*self)
    }
}

/// The value of the first attribute at or after position `from` whose name is `name`.
pub open spec fn attribute_from(
    attributes: Seq<NodeAttributeView>,
    name: Seq<char>,
    from: int,
) -> Option<Seq<char>>
    decreases attributes.len() - from,
{
    if from < 0 || from >= attributes.len() {
        None
    } else if attributes[from].name == name {
        Some(attributes[from].value)
    } else {
        attribute_from(attributes, name, from + 1)
    }
}

/// The value of the first attribute at or after position `from` that is in
/// the namespace `namespace` and has the local name `name`.
pub open spec fn attribute_in_from(
    attributes: Seq<NodeAttributeView>,
    namespace: Seq<char>,
    name: Seq<char>,
    from: int,
) -> Option<Seq<char>>
    decreases attributes.len() - from,
{
    if from < 0 || from >= attributes.len() {
        None
    } else if attributes[from].namespace == Some(namespace) && attributes[from].name == name {
        Some(attributes[from].value)
    } else {
        attribute_in_from(attributes, namespace, name, from + 1)
    }
}

/// The position at or after `from` of the first child of `node` that is an element.
pub open spec fn element_from(node: NodeView, from: int) -> Option<int>
    decreases node.children.len() - from,
{
    if from < 0 || from >= node.children.len() {
        None
    } else if node.children[from].is_element() {
        Some(from)
    } else {
        element_from(node, from + 1)
    }
}

/// The test for an element with the tag `tag`.
pub open spec fn has_tag(tag: Seq<char>) -> spec_fn(NodeView) -> bool {
    |c: NodeView| c.is_element() && c.name == tag
}

/// What the last of `children` stands for; nothing where there is none.
pub open spec fn last_of<T>(children: Seq<NodeView>, build: spec_fn(NodeView) -> T) -> Option<T> {
    if children.len() == 0 {
        None
    } else {
        Some(build(children.last()))
    }
}

impl NodeView {
    /// The node with no more than its first `count` children.
    pub open spec fn before(self, count: int) -> NodeView {
        NodeView { children: self.children.take(count), ..self }
    }

    /// The child elements with the tag `tag`, in document order.
    pub open spec fn tagged(self, tag: Seq<char>) -> Seq<NodeView> {
        self.children.filter(has_tag(tag))
    }

    /// The child elements, in document order.
    pub open spec fn elements(self) -> Seq<NodeView> {
        self.children.filter(|c: NodeView| c.is_element())
    }

    /// The first child that is an element, if there is one.
    pub open spec fn first_element(self) -> Option<NodeView> {
        match element_from(self, 0) {
            Some(i) => Some(self.children[i]),
            None => None,
        }
    }

    /// The value of the first attribute with the local name `name`, in
    /// whatever namespace, if there is one.
    pub open spec fn attribute(self, name: Seq<char>) -> Option<Seq<char>> {
        attribute_from(self.attributes, name, 0)
    }

    /// The value of the first attribute that is in the namespace `namespace`
    /// and has the local name `name`, if there is one.
    pub open spec fn attribute_in(self, namespace: Seq<char>, name: Seq<char>) -> Option<
        Seq<char>,
    > {
        attribute_in_from(self.attributes, namespace, name, 0)
    }

    /// Whether the node is an element.
    pub open spec fn is_element(self) -> bool {
        self.kind == NodeKind::Element
    }
}

/// Children that are no elements are passed over: where none of the children
/// from `from` up to `upto` is an element, the first element from `from` on
/// is the first one from `upto` on.
pub(crate) proof fn lemma_element_from_prefix(node: NodeView, from: int, upto: int)
    requires
        0 <= from <= upto <= node.children.len(),
        element_from(node.before(upto), from) is None,
    ensures
        element_from(node, from) == element_from(node, upto),
    decreases upto - from,
{
    if from < upto {
        lemma_element_from_prefix(node, from + 1, upto);
    }
}

/// One more child adds itself to the children with a tag where it is an
/// element with that tag, and nothing where it is not.
pub(crate) proof fn lemma_tagged_step(node: NodeView, tag: Seq<char>, upto: int)
    requires
        0 <= upto < node.children.len(),
    ensures
        node.before(upto + 1).tagged(tag) == if node.children[upto].is_element()
            && node.children[upto].name == tag {
            node.before(upto).tagged(tag).push(node.children[upto])
        } else {
            node.before(upto).tagged(tag)
        },
{
    let longer = node.before(upto + 1).children;
    let shorter = node.before(upto).children;
    reveal(Seq::filter);
    assert(longer.drop_last() =~= shorter);
}

/// One more child adds itself to the child elements where it is an element,
/// and nothing where it is not.
pub(crate) proof fn lemma_elements_step(node: NodeView, upto: int)
    requires
        0 <= upto < node.children.len(),
    ensures
        node.before(upto + 1).elements() == if node.children[upto].is_element() {
            node.before(upto).elements().push(node.children[upto])
        } else {
            node.before(upto).elements()
        },
{
    let longer = node.before(upto + 1).children;
    let shorter = node.before(upto).children;
    reveal(Seq::filter);
    assert(longer.drop_last() =~= shorter);
}

/// A node without children has no child elements.
pub(crate) proof fn lemma_elements_ends(node: NodeView)
    ensures
        node.before(0).elements() == Seq::<NodeView>::empty(),
{
    reveal(Seq::filter);
}

/// A node before the end of its children is the node itself.
pub(crate) proof fn lemma_before_end(node: NodeView)
    ensures
        node.before(node.children.len() as int) == node,
{
    assert(node.children.take(node.children.len() as int) =~= node.children);
}

impl Node {
    /// The value of the first attribute whose local name is `name`.
    pub fn attribute(&self, name: &str) -> (r: Option<&str>)
        ensures
            chars_of(r) == self@.attribute(name@),
    {
        let mut i: usize = 0;
        while i < self.attributes.len()
            invariant
                i <= self.attributes.len(),
                self@.attributes.len() == self.attributes.len(),
                self@.attribute(name@) == attribute_from(self@.attributes, name@, i as int),
            decreases self.attributes.len() - i,
        {
            if same_text(self.attributes[i].name.as_str(), name) {
                return Some(self.attributes[i].value.as_str());
            }
            i += 1;
        }
        None
    }

    /// The value of the first attribute that is in the namespace `namespace`
    /// and has the local name `name`.
    pub fn attribute_in(&self, namespace: &str, name: &str) -> (r: Option<&str>)
        ensures
            chars_of(r) == self@.attribute_in(namespace@, name@),
    {
        let mut i: usize = 0;
        while i < self.attributes.len()
            invariant
                i <= self.attributes.len(),
                self@.attributes.len() == self.attributes.len(),
                self@.attribute_in(namespace@, name@) == attribute_in_from(
                    self@.attributes,
                    namespace@,
                    name@,
                    i as int,
                ),
            decreases self.attributes.len() - i,
        {
            let attribute = &self.attributes[i];
            assert(attribute@ == self@.attributes[i as int]);
            let within = match &attribute.namespace {
                Some(uri) => same_text(uri.as_str(), namespace),
                None => false,
            };
            if within && same_text(attribute.name.as_str(), name) {
                return Some(attribute.value.as_str());
            }
            i += 1;
        }
        None
    }

    /// The first child that is an element, if there is one.
    pub fn first_element(&self) -> (r: Option<&Node>)
        ensures
            match r {
                Some(child) => self@.first_element() == Some(child@),
                None => self@.first_element() is None,
            },
    {
        let mut i: usize = 0;
        while i < self.children.len()
            invariant
                i <= self.children.len(),
                self@.children.len() == self.children.len(),
                element_from(self@, 0) == element_from(self@, i as int),
            decreases self.children.len() - i,
        {
            let child = &self.children[i];
            if child.is_element() {
                return Some(child);
            }
            i += 1;
        }
        None
    }

    /// Whether the node is an element.
    pub fn is_element(&self) -> (r: bool)
        ensures
            r == self@.is_element(),
    {
        match self.kind {
            NodeKind::Element => true,
            _ => false,
        }
    }
}

} // verus!
