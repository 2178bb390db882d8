//! The archive of one page: its address, its original text, and the
//! store of fetched resources — and the rewriting of the page around
//! that store.

use crate::dom::HtmlDocument;
use crate::error::Error;
use crate::locator::Locator;
use crate::parsing::parse_html_document;
use crate::parsing::parse_html_of;
use crate::resources::ResourceMap;
use crate::rewrite::rewrite_children_m;
use crate::rewrite::rewrite_children_x;
use vstd::prelude::*;

verus! {

/// What the HTML serializer prints for a document tree: a function
/// of the tree alone.
pub uninterp spec fn html_of(doc: Seq<crate::dom::NodeModel>) -> Seq<char>;

/// Relies on kuchiki::NodeRef::new_element: one element node, with
/// its attributes in the null namespace.
#[verifier::external_body]
fn element_node(tag: &str, attrs: &Vec<crate::dom::HtmlAttr>) -> kuchiki::NodeRef {
    let html_ns = html5ever::Namespace::from("http://www.w3.org/1999/xhtml");
    let name = html5ever::QualName::new(None, html_ns, html5ever::LocalName::from(tag));
    kuchiki::NodeRef::new_element(
        name,
        attrs.iter().map(|a| (
            kuchiki::ExpandedName::new(html5ever::Namespace::from(""), html5ever::LocalName::from(a.name.as_str())),
            kuchiki::Attribute { prefix: None, value: a.value.clone() },
        )),
    )
}

/// Relies on kuchiki's node constructors: copies one node of the
/// crate's tree, child by child, back into a parser tree.
#[verifier::external_body]
fn build_html_node(n: &crate::dom::DomNode) -> kuchiki::NodeRef {
    match n {
        crate::dom::DomNode::Element { tag, attrs, children } => {
            let el = element_node(tag.as_str(), attrs);
            for c in children.iter() {
                el.append(build_html_node(c));
            }
            el
        },
        crate::dom::DomNode::Text { text } => kuchiki::NodeRef::new_text(text.as_str()),
        crate::dom::DomNode::Comment { text } => kuchiki::NodeRef::new_comment(text.as_str()),
        crate::dom::DomNode::Doctype { name, public_id, system_id } =>
            kuchiki::NodeRef::new_doctype(name.as_str(), public_id.as_str(), system_id.as_str()),
    }
}

/// Relies on kuchiki's HTML serializer (html5ever's): prints the
/// tree as HTML text, a deterministic function of the tree, which
/// [`html_of`] names.
#[verifier::external_body]
fn serialize_document(doc: &HtmlDocument) -> (r: String)
    ensures
        r@ == html_of(doc@),
{
    let root = kuchiki::NodeRef::new_document();
    for n in doc.nodes.iter() {
        root.append(build_html_node(n));
    }
    root.to_string()
}

/// The in-memory archive of one fetched page.
#[derive(Debug)]
pub struct PageArchive {
    /// The address the page was fetched from.
    pub url: Locator,
    /// The page text, as fetched.
    pub content: String,
    /// The fetched resources, keyed by address.
    pub resource_map: ResourceMap,
}

impl PageArchive {
    /// Re-parses the original page text and embeds every stored
    /// resource inline: `img` addresses become data URIs, stylesheet
    /// links become `style` elements, script bodies are written into
    /// their elements. The result is the serialized rewritten tree;
    /// rewriting itself cannot fail.
    pub fn embed_resources(&self) -> (r: Result<String, Error>)
        requires
            self.resource_map.wf(),
        ensures
            r is Ok,
            r matches Ok(s) ==> s@ == html_of(
                rewrite_children_m(
                    parse_html_of(self.content@),
                    self.url@,
                    self.resource_map@,
                ),
            ),
    {
        let doc = parse_html_document(self.content.as_str());
        let rewritten = HtmlDocument {
            nodes: rewrite_children_x(&doc.nodes, &self.url, &self.resource_map),
        };
        Ok(serialize_document(&rewritten))
    }
}

} // verus!
