//! XML trees: what the features read of a parsed document.

use crate::seqs;
use crate::text::same_text;
use std::ops::Range;
use vstd::prelude::*;

verus! {

/// An attribute: its local name, its value, and the bytes of the value in the document.
pub struct XmlAttr {
    pub name: Seq<char>,
    pub value: Seq<char>,
    pub range_value: Range<usize>,
}

impl XmlAttr {
    pub open spec fn is_named(self, name: Seq<char>) -> bool {
        self.name == name
    }
}

/// What a node is: an element with its local tag name, a text, or anything else (the document
/// itself, a comment, a processing instruction).
pub enum XmlKind {
    Element(Seq<char>),
    Text(Seq<char>),
    Other,
}

/// A node with everything below it.
pub struct XmlTree {
    pub kind: XmlKind,
    pub attributes: Seq<XmlAttr>,
    pub range: Range<usize>,
    pub children: Seq<XmlTree>,
}

impl XmlTree {
    pub open spec fn is_element(self, tag: Seq<char>) -> bool {
        self.kind == XmlKind::Element(tag)
    }

    /// The value of the first attribute with the given local name.
    pub open spec fn attribute(self, name: Seq<char>) -> Option<Seq<char>> {
        match seqs::find_first(self.attributes, |a: XmlAttr| a.is_named(name)) {
            Some(a) => Some(a.value),
            None => None,
        }
    }

    /// The text of the first child that is a text.
    pub open spec fn first_text(self) -> Option<Seq<char>> {
        match seqs::find_first(self.children, |c: XmlTree| c.kind is Text) {
            Some(c) => Some(c.kind->Text_0),
            None => None,
        }
    }
}

/// An attribute of an [`XmlNode`].
pub struct XmlAttribute {
    pub name: String,
    pub value: String,
    pub range_value: Range<usize>,
}

impl View for XmlAttribute {
    type V = XmlAttr;

    open spec fn view(&self) -> XmlAttr {
        XmlAttr { name: self.name@, value: self.value@, range_value: self.range_value }
    }
}

/// The kind of an [`XmlNode`].
pub enum XmlNodeKind {
    Element(String),
    Text(String),
    Other,
}

impl View for XmlNodeKind {
    type V = XmlKind;

    open spec fn view(&self) -> XmlKind {
        match self {
            XmlNodeKind::Element(tag) => XmlKind::Element(tag@),
            XmlNodeKind::Text(text) => XmlKind::Text(text@),
            XmlNodeKind::Other => XmlKind::Other,
        }
    }
}

/// A node of an XML document, with its children in document order.
pub struct XmlNode {
    pub kind: XmlNodeKind,
    pub attributes: Vec<XmlAttribute>,
    pub range: Range<usize>,
    pub children: Vec<XmlNode>,
}

pub open spec fn attrs_view(attributes: Seq<XmlAttribute>) -> Seq<XmlAttr> {
    attributes.map_values(|a: XmlAttribute| a@)
}

/// The tree that a node stands for.
pub open spec fn tree_of(node: XmlNode) -> XmlTree
    decreases node,
{
    XmlTree {
        kind: node.kind@,
        attributes: attrs_view(node.attributes@),
        range: node.range,
        children: Seq::new(
            node.children@.len(),
            |i: int|
                if 0 <= i < node.children@.len() {
                    tree_of(node.children@[i])
                } else {
                    arbitrary()
                },
        ),
    }
}

impl View for XmlNode {
    type V = XmlTree;

    open spec fn view(&self) -> XmlTree {
        tree_of(*self)
    }
}

/// A node of a document that roxmltree has parsed.
#[verifier::external_type_specification]
#[verifier::external_body]
pub struct ExNode<'a, 'input: 'a>(roxmltree::Node<'a, 'input>);

/// The node and everything below it, as roxmltree's accessors hand it out. A document is
/// parsed once and does not change, and it is a finite tree.
pub uninterp spec fn parsed_tree(node: roxmltree::Node<'_, '_>) -> XmlTree;

/// `Node::is_element` tells whether the node is an element.
#[verifier::external_body]
fn node_is_element(node: &roxmltree::Node<'_, '_>) -> (res: bool)
    ensures
        res == (parsed_tree(*node).kind is Element),
{
    node.is_element()
}

/// `Node::is_text` tells whether the node is a text.
#[verifier::external_body]
fn node_is_text(node: &roxmltree::Node<'_, '_>) -> (res: bool)
    ensures
        res == (parsed_tree(*node).kind is Text),
{
    node.is_text()
}

/// `Node::tag_name` returns an element's expanded name, of which `ExpandedName::name` is the
/// local part.
#[verifier::external_body]
fn node_tag_name(node: &roxmltree::Node<'_, '_>) -> (res: String)
    requires
        parsed_tree(*node).kind is Element,
    ensures
        res@ == parsed_tree(*node).kind->Element_0,
{
    node.tag_name().name().to_string()
}

/// `Node::text` returns the text of a node that is a text.
#[verifier::external_body]
fn node_text(node: &roxmltree::Node<'_, '_>) -> (res: Option<String>)
    requires
        parsed_tree(*node).kind is Text,
    ensures
        res is Some,
        res.unwrap()@ == parsed_tree(*node).kind->Text_0,
{
    node.text().map(|s| s.to_string())
}

/// `Node::range` returns the bytes of the document that the node covers.
#[verifier::external_body]
fn node_range(node: &roxmltree::Node<'_, '_>) -> (res: Range<usize>)
    ensures
        res == parsed_tree(*node).range,
{
    node.range()
}

/// `Node::attributes` iterates over the attributes in document order; each is handed out with
/// its `name`, `value` and `range_value`.
#[verifier::external_body]
fn node_attributes(node: &roxmltree::Node<'_, '_>) -> (res: Vec<XmlAttribute>)
    ensures
        attrs_view(res@) == parsed_tree(*node).attributes,
{
    node.attributes()
        .map(|a| XmlAttribute {
            name: a.name().to_string(),
            value: a.value().to_string(),
            range_value: a.range_value(),
        })
        .collect()
}

/// `Node::children` iterates over the children in document order.
#[verifier::external_body]
fn node_children<'a, 'input>(node: &roxmltree::Node<'a, 'input>) -> (res: Vec<
    roxmltree::Node<'a, 'input>,
>)
    ensures
        res@.map_values(|c: roxmltree::Node<'a, 'input>| parsed_tree(c))
            == parsed_tree(*node).children,
{
    node.children().collect()
}

impl XmlNode {
    /// The tree below a node of a parsed document.
    pub fn from_parsed(node: &roxmltree::Node<'_, '_>) -> (res: XmlNode)
        ensures
            res@ == parsed_tree(*node),
        decreases parsed_tree(*node),
    {
        let kind = if node_is_element(node) {
            XmlNodeKind::Element(node_tag_name(node))
        } else if node_is_text(node) {
            XmlNodeKind::Text(node_text(node).unwrap())
        } else {
            XmlNodeKind::Other
        };
        let attributes = node_attributes(node);
        let range = node_range(node);
        let parsed = node_children(node);
        let ghost trees = parsed_tree(*node).children;
        let mut children: Vec<XmlNode> = Vec::new();
        let mut i: usize = 0;
        while i < parsed.len()
            invariant
                i <= parsed.len(),
                trees == parsed_tree(*node).children,
                trees == parsed@.map_values(|c: roxmltree::Node<'_, '_>| parsed_tree(c)),
                children@.len() == i,
                forall|j: int| 0 <= j < i ==> (#[trigger] children@[j])@ == trees[j],
            decreases parsed.len() - i,
        {
            assert(trees[i as int] == parsed_tree(parsed@[i as int]));
            children.push(XmlNode::from_parsed(&parsed[i]));
            i += 1;
        }
        let res = XmlNode { kind, attributes, range, children };
        assert(res@.children =~= trees);
        res
    }

    /// The value of the node's first attribute with the given local name.
    pub fn attribute(&self, name: &str) -> (res: Option<&String>)
        ensures
            res matches Some(v) ==> self@.attribute(name@) == Some(v@),
            res is None ==> self@.attribute(name@) is None,
    {
        let ghost attrs = self@.attributes;
        let ghost p = |a: XmlAttr| a.is_named(name@);
        let mut i: usize = 0;
        while i < self.attributes.len()
            invariant
                i <= self.attributes.len(),
                attrs == attrs_view(self.attributes@),
                attrs == self@.attributes,
                p == (|a: XmlAttr| a.is_named(name@)),
                forall|j: int| 0 <= j < i ==> !p(#[trigger] attrs[j]),
            decreases self.attributes.len() - i,
        {
            assert(attrs[i as int] == self.attributes@[i as int]@);
            if same_text(&self.attributes[i].name, name) {
                proof {
                    seqs::lemma_find_first_at(attrs, p, i as int);
                }
                return Some(&self.attributes[i].value);
            }
            i += 1;
        }
        proof {
            seqs::lemma_find_first_none(attrs, p);
        }
        None
    }

    /// The text of the node's first child that is a text.
    pub fn first_text(&self) -> (res: Option<&String>)
        ensures
            res matches Some(v) ==> self@.first_text() == Some(v@),
            res is None ==> self@.first_text() is None,
    {
        let ghost trees = self@.children;
        let ghost p = |c: XmlTree| c.kind is Text;
        let mut i: usize = 0;
        while i < self.children.len()
            invariant
                i <= self.children.len(),
                trees == self@.children,
                trees.len() == self.children@.len(),
                p == (|c: XmlTree| c.kind is Text),
                forall|j: int| 0 <= j < i ==> !p(#[trigger] trees[j]),
            decreases self.children.len() - i,
        {
            assert(trees[i as int] == self.children@[i as int]@);
            if let XmlNodeKind::Text(text) = &self.children[i].kind {
                proof {
                    seqs::lemma_find_first_at(trees, p, i as int);
                }
                return Some(text);
            }
            i += 1;
        }
        proof {
            seqs::lemma_find_first_none(trees, p);
        }
        None
    }
}

/// The tree of a node leaves nothing out: what the node is, its attributes with their names, values
/// and places, its own place, and its children, all in order.
pub proof fn law_tree_of_a_node(node: XmlNode)
    ensures
        node@.kind == (match node.kind {
            XmlNodeKind::Element(tag) => XmlKind::Element(tag@),
            XmlNodeKind::Text(t) => XmlKind::Text(t@),
            XmlNodeKind::Other => XmlKind::Other,
        }),
        node@.range == node.range,
        node@.attributes.len() == node.attributes@.len(),
        forall|i: int|
            0 <= i < node.attributes@.len() ==> (#[trigger] node@.attributes[i]).name
                == node.attributes@[i].name@ && node@.attributes[i].value
                == node.attributes@[i].value@ && node@.attributes[i].range_value
                == node.attributes@[i].range_value,
        node@.children.len() == node.children@.len(),
        forall|i: int|
            0 <= i < node.children@.len() ==> #[trigger] node@.children[i] == node.children@[i]@,
{
}

} // verus!
