//! The document tree that the discovery walker reads and the rewriter
//! transforms.
//!
//! A parsed page is held as a forest of owned nodes: elements carry a
//! lowercase tag name, an attribute list in the order the parser
//! hands the attributes over, and their child nodes; the remaining
//! kinds carry plain text. The mathematical
//! model of a node ([`NodeModel`]) mirrors this shape over `Seq`, and
//! is what every contract about discovery and rewriting speaks of.

use vstd::prelude::*;

verus! {

/// One attribute of an element, as the parser handed it over.
#[derive(Debug)]
pub struct HtmlAttr {
    pub name: String,
    pub value: String,
}

/// The mathematical value of an attribute.
pub ghost struct AttrModel {
    pub name: Seq<char>,
    pub value: Seq<char>,
}

impl View for HtmlAttr {
    type V = AttrModel;

    open spec fn view(&self) -> AttrModel {
        AttrModel { name: self.name@, value: self.value@ }
    }
}

/// One node of the document tree.
#[derive(Debug)]
pub enum DomNode {
    /// An element: `<tag attr="value">children</tag>`.
    Element { tag: String, attrs: Vec<HtmlAttr>, children: Vec<DomNode> },
    /// A run of character data.
    Text { text: String },
    /// A comment.
    Comment { text: String },
    /// A document type declaration.
    Doctype { name: String, public_id: String, system_id: String },
}

/// The mathematical value of a node.
pub ghost enum NodeModel {
    Element { tag: Seq<char>, attrs: Seq<AttrModel>, children: Seq<NodeModel> },
    Text { text: Seq<char> },
    Comment { text: Seq<char> },
    Doctype { name: Seq<char>, public_id: Seq<char>, system_id: Seq<char> },
}

pub open spec fn attrs_model(attrs: Seq<HtmlAttr>) -> Seq<AttrModel> {
    attrs.map_values(|a: HtmlAttr| a@)
}

pub open spec fn node_model(n: DomNode) -> NodeModel
    decreases n,
{
    match n {
        DomNode::Element { tag, attrs, children } => NodeModel::Element {
            tag: tag@,
            attrs: attrs_model(attrs@),
            children: nodes_model(children@),
        },
        DomNode::Text { text } => NodeModel::Text { text: text@ },
        DomNode::Comment { text } => NodeModel::Comment { text: text@ },
        DomNode::Doctype { name, public_id, system_id } => NodeModel::Doctype {
            name: name@,
            public_id: public_id@,
            system_id: system_id@,
        },
    }
}

pub open spec fn nodes_model(ns: Seq<DomNode>) -> Seq<NodeModel>
    decreases ns,
{
    if ns.len() == 0 {
        Seq::empty()
    } else {
        seq![node_model(ns[0])] + nodes_model(ns.subrange(1, ns.len() as int))
    }
}

impl View for DomNode {
    type V = NodeModel;

    open spec fn view(&self) -> NodeModel {
        node_model(*self)
    }
}

/// The model of a node sequence is the sequence of the node models.
pub proof fn lemma_nodes_model_entries(ns: Seq<DomNode>)
    ensures
        nodes_model(ns).len() == ns.len(),
        forall|i: int| 0 <= i < ns.len() ==> nodes_model(ns)[i] == node_model(ns[i]),
    decreases ns.len(),
{
    if ns.len() > 0 {
        lemma_nodes_model_entries(ns.subrange(1, ns.len() as int));
    }
}

/// The model of a concatenation is the concatenation of the models.
pub proof fn lemma_nodes_model_concat(a: Seq<DomNode>, b: Seq<DomNode>)
    ensures
        nodes_model(a + b) == nodes_model(a) + nodes_model(b),
{
    lemma_nodes_model_entries(a);
    lemma_nodes_model_entries(b);
    lemma_nodes_model_entries(a + b);
    assert(nodes_model(a + b) =~= nodes_model(a) + nodes_model(b));
}

/// A parsed document: the children of the document root, in order.
#[derive(Debug)]
pub struct HtmlDocument {
    pub nodes: Vec<DomNode>,
}

impl View for HtmlDocument {
    type V = Seq<NodeModel>;

    open spec fn view(&self) -> Seq<NodeModel> {
        nodes_model(self.nodes@)
    }
}

/// The value of the first attribute with the given name, if any.
pub open spec fn first_attr(attrs: Seq<AttrModel>, name: Seq<char>) -> Option<Seq<char>>
    decreases attrs,
{
    if attrs.len() == 0 {
        None
    } else if attrs[0].name == name {
        Some(attrs[0].value)
    } else {
        first_attr(attrs.subrange(1, attrs.len() as int), name)
    }
}

/// Looks up the value of the first attribute with the given name.
#[verifier::loop_isolation(false)]
pub fn find_attr<'a>(attrs: &'a Vec<HtmlAttr>, name: &str) -> (r: Option<&'a String>)
    ensures
        match r {
            Some(v) => first_attr(attrs_model(attrs@), name@) == Some(v@),
            None => first_attr(attrs_model(attrs@), name@) is None,
        },
{
    proof {
        assert(attrs_model(attrs@).subrange(0, attrs@.len() as int) =~= attrs_model(attrs@));
    }
    let mut i: usize = 0;
    while i < attrs.len()
        invariant
            i <= attrs.len(),
            first_attr(attrs_model(attrs@), name@) == first_attr(
                attrs_model(attrs@).subrange(i as int, attrs@.len() as int),
                name@,
            ),
        decreases attrs.len() - i,
    {
        proof {
            assert(attrs_model(attrs@).subrange(i as int, attrs@.len() as int).subrange(
                1,
                attrs_model(attrs@).subrange(i as int, attrs@.len() as int).len() as int,
            ) =~= attrs_model(attrs@).subrange(i + 1, attrs@.len() as int));
        }
        if crate::text::str_eq(attrs[i].name.as_str(), name) {
            return Some(&attrs[i].value);
        }
        i = i + 1;
    }
    None
}

} // verus!
