//! Resource discovery: a read-only walk of a parsed document that
//! yields the typed addresses of every referenced resource, in
//! document order.
//!
//! An `img` or `script` element contributes one entry for every `src`
//! attribute whose value resolves against the base address; a `link`
//! element contributes one stylesheet entry when some `rel` attribute
//! equals `stylesheet` and the last resolvable `href` gives its
//! address. Every other element, and every non-element node, is
//! walked into and contributes nothing. Unresolvable attribute values
//! are skipped, never an error.

use crate::dom::attrs_model;
use crate::dom::node_model;
use crate::dom::nodes_model;
use crate::dom::AttrModel;
use crate::dom::DomNode;
use crate::dom::HtmlAttr;
use crate::dom::HtmlDocument;
use crate::dom::NodeModel;
use crate::error::Error;
use crate::locator::url_join_of;
use crate::locator::Locator;
use crate::resources::ResourceUrl;
use crate::resources::ResourceUrlModel;
use crate::text::str_eq;
use kuchiki::traits::TendrilSink;
use vstd::prelude::*;

verus! {

/// The models of a sequence of typed addresses.
pub open spec fn urls_model(s: Seq<ResourceUrl>) -> Seq<ResourceUrlModel> {
    s.map_values(|u: ResourceUrl| u@)
}

/// The entries an `img` or `script` element contributes: one per
/// `src` attribute whose value resolves, in attribute order.
pub open spec fn src_refs(base: Seq<char>, attrs: Seq<AttrModel>, as_image: bool) -> Seq<
    ResourceUrlModel,
>
    decreases attrs,
{
    if attrs.len() == 0 {
        Seq::empty()
    } else {
        let rest = src_refs(base, attrs.subrange(1, attrs.len() as int), as_image);
        if attrs[0].name == "src"@ && url_join_of(base, attrs[0].value) is Some {
            let u = url_join_of(base, attrs[0].value)->0;
            seq![if as_image {
                ResourceUrlModel::Image(u)
            } else {
                ResourceUrlModel::Javascript(u)
            }] + rest
        } else {
            rest
        }
    }
}

/// Whether some `rel` attribute equals exactly `stylesheet`.
pub open spec fn is_stylesheet_rel(attrs: Seq<AttrModel>) -> bool {
    exists|i: int|
        0 <= i < attrs.len() && attrs[i].name == "rel"@ && attrs[i].value == "stylesheet"@
}

/// The address of the last `href` attribute whose value resolves, if
/// any; an `href` that does not resolve falls back to an earlier one.
pub open spec fn last_href_target(base: Seq<char>, attrs: Seq<AttrModel>) -> Option<Seq<char>>
    decreases attrs,
{
    if attrs.len() == 0 {
        None
    } else {
        let last = attrs[attrs.len() - 1];
        if last.name == "href"@ && url_join_of(base, last.value) is Some {
            Some(url_join_of(base, last.value)->0)
        } else {
            last_href_target(base, attrs.subrange(0, attrs.len() - 1))
        }
    }
}

/// The entry a `link` element contributes.
pub open spec fn link_refs(base: Seq<char>, attrs: Seq<AttrModel>) -> Seq<ResourceUrlModel> {
    if is_stylesheet_rel(attrs) && last_href_target(base, attrs) is Some {
        seq![ResourceUrlModel::Css(last_href_target(base, attrs)->0)]
    } else {
        Seq::empty()
    }
}

/// What one element contributes, by its tag.
pub open spec fn elem_refs(base: Seq<char>, tag: Seq<char>, attrs: Seq<AttrModel>) -> Seq<
    ResourceUrlModel,
> {
    if tag == "img"@ {
        src_refs(base, attrs, true)
    } else if tag == "script"@ {
        src_refs(base, attrs, false)
    } else if tag == "link"@ {
        link_refs(base, attrs)
    } else {
        Seq::empty()
    }
}

/// What one node and its subtree contribute, in document order: the
/// node's own entries first, then those of its children left to
/// right.
pub open spec fn node_refs(base: Seq<char>, n: NodeModel) -> Seq<ResourceUrlModel>
    decreases n, 1int,
{
    match n {
        NodeModel::Element { tag, attrs, children } => elem_refs(base, tag, attrs)
            + forest_refs(base, children),
        _ => Seq::empty(),
    }
}

/// What a sequence of sibling subtrees contributes, left to right.
pub open spec fn forest_refs(base: Seq<char>, ns: Seq<NodeModel>) -> Seq<ResourceUrlModel>
    decreases ns, 0int,
{
    if ns.len() == 0 {
        Seq::empty()
    } else {
        forest_refs(base, ns.subrange(0, ns.len() - 1)) + node_refs(base, ns[ns.len() - 1])
    }
}

/// Appends the entries of every resolving `src` attribute.
#[verifier::loop_isolation(false)]
fn collect_src_refs(base: &Locator, attrs: &Vec<HtmlAttr>, as_image: bool, out: &mut Vec<
    ResourceUrl,
>)
    ensures
        urls_model(final(out)@) == urls_model(old(out)@) + src_refs(
            base@,
            attrs_model(attrs@),
            as_image,
        ),
{
    let ghost am = attrs_model(attrs@);
    let ghost out0 = out@;
    proof {
        assert(am.subrange(0, am.len() as int) =~= am);
    }
    let mut i: usize = 0;
    while i < attrs.len()
        invariant
            i <= attrs.len(),
            out@.len() >= out0.len(),
            urls_model(out@) + src_refs(base@, am.subrange(i as int, am.len() as int), as_image)
                == urls_model(out0) + src_refs(base@, am, as_image),
        decreases attrs.len() - i,
    {
        proof {
            assert(am.subrange(i as int, am.len() as int).subrange(
                1,
                am.subrange(i as int, am.len() as int).len() as int,
            ) =~= am.subrange(i + 1, am.len() as int));
        }
        if str_eq(attrs[i].name.as_str(), "src") {
            match base.join_opt(attrs[i].value.as_str()) {
                Some(u) => {
                    let entry = if as_image {
                        ResourceUrl::Image(u)
                    } else {
                        ResourceUrl::Javascript(u)
                    };
                    out.push(entry);
                    proof {
                        assert(urls_model(out@) =~= urls_model(out@.subrange(
                            0,
                            out@.len() - 1,
                        )).push(out@[out@.len() - 1]@));
                        assert(out@.subrange(0, out@.len() - 1) =~= out@.drop_last());
                        assert(urls_model(out@) + src_refs(base@, am.subrange(
                            i + 1,
                            am.len() as int,
                        ), as_image) =~= urls_model(out0) + src_refs(base@, am, as_image));
                    }
                },
                None => {
                },
            }
        }
        i = i + 1;
    }
    proof {
        assert(am.subrange(am.len() as int, am.len() as int) =~= Seq::<AttrModel>::empty());
        assert(urls_model(out@) =~= urls_model(out@) + Seq::<ResourceUrlModel>::empty());
        assert(urls_model(out@) =~= urls_model(out0) + src_refs(base@, am, as_image));
    }
}

/// Appends the entry of a `link` element, when it is a stylesheet
/// reference with a resolvable address.
#[verifier::loop_isolation(false)]
fn collect_link_ref(base: &Locator, attrs: &Vec<HtmlAttr>, out: &mut Vec<ResourceUrl>)
    ensures
        urls_model(final(out)@) == urls_model(old(out)@) + link_refs(base@, attrs_model(attrs@)),
{
    let ghost am = attrs_model(attrs@);
    let ghost out0 = out@;
    let mut is_stylesheet: bool = false;
    let mut target: Option<Locator> = None;
    let mut i: usize = 0;
    while i < attrs.len()
        invariant
            i <= attrs.len(),
            out@ == out0,
            is_stylesheet == is_stylesheet_rel(am.subrange(0, i as int)),
            match target {
                Some(l) => last_href_target(base@, am.subrange(0, i as int)) == Some(l@),
                None => last_href_target(base@, am.subrange(0, i as int)) is None,
            },
        decreases attrs.len() - i,
    {
        proof {
            assert(am.subrange(0, i + 1).subrange(0, i as int) =~= am.subrange(0, i as int));
        }
        let rel_here = str_eq(attrs[i].name.as_str(), "rel") && str_eq(
            attrs[i].value.as_str(),
            "stylesheet",
        );
        if rel_here {
            is_stylesheet = true;
        }
        if str_eq(attrs[i].name.as_str(), "href") {
            match base.join_opt(attrs[i].value.as_str()) {
                Some(u) => {
                    target = Some(u);
                },
                None => {
                },
            }
        }
        i = i + 1;
        proof {
            if is_stylesheet {
                assert(is_stylesheet_rel(am.subrange(0, i as int)));
            } else {
                assert forall|j: int| 0 <= j < i implies !(#[trigger] am.subrange(
                    0,
                    i as int,
                )[j].name == "rel"@ && am.subrange(0, i as int)[j].value == "stylesheet"@) by {
                    if j < i - 1 {
                        assert(am.subrange(0, i - 1)[j] == am.subrange(0, i as int)[j]);
                        if am.subrange(0, i as int)[j].name == "rel"@ && am.subrange(
                            0,
                            i as int,
                        )[j].value == "stylesheet"@ {
                            assert(is_stylesheet_rel(am.subrange(0, i - 1)));
                        }
                    } else {
                        assert(am.subrange(0, i as int)[j] == attrs@[j]@);
                    }
                }
                assert(!is_stylesheet_rel(am.subrange(0, i as int)));
            }
        }
    }
    proof {
        assert(am.subrange(0, am.len() as int) =~= am);
    }
    if is_stylesheet {
        match target {
            Some(u) => {
                out.push(ResourceUrl::Css(u));
                proof {
                    assert(urls_model(out@) =~= urls_model(out0) + link_refs(base@, am));
                }
            },
            None => {
                proof {
                    assert(urls_model(out@) =~= urls_model(out0) + link_refs(base@, am));
                }
            },
        }
    } else {
        proof {
            assert(urls_model(out@) =~= urls_model(out0) + link_refs(base@, am));
        }
    }
}

/// Appends everything one subtree contributes, in document order.
#[verifier::loop_isolation(false)]
fn walk_node(base: &Locator, n: &DomNode, out: &mut Vec<ResourceUrl>)
    ensures
        urls_model(final(out)@) == urls_model(old(out)@) + node_refs(base@, n@),
    decreases *n,
{
    match n {
        DomNode::Element { tag, attrs, children } => {
            if str_eq(tag.as_str(), "img") {
                collect_src_refs(base, attrs, true, out);
            } else if str_eq(tag.as_str(), "script") {
                collect_src_refs(base, attrs, false, out);
            } else if str_eq(tag.as_str(), "link") {
                collect_link_ref(base, attrs, out);
            } else {
                proof {
                    assert(urls_model(out@) =~= urls_model(out@) + elem_refs(
                        base@,
                        tag@,
                        attrs_model(attrs@),
                    ));
                }
            }
            let ghost m = nodes_model(children@);
            let ghost mid = out@;
            proof {
                crate::dom::lemma_nodes_model_entries(children@);
                assert(m.subrange(0, 0) =~= Seq::<NodeModel>::empty());
                assert(urls_model(mid) =~= urls_model(mid) + forest_refs(base@, m.subrange(
                    0,
                    0,
                )));
            }
            let mut i: usize = 0;
            while i < children.len()
                invariant
                    i <= children.len(),
                    urls_model(out@) == urls_model(mid) + forest_refs(base@, m.subrange(
                        0,
                        i as int,
                    )),
                decreases children.len() - i,
            {
                proof {
                    assert(*n is Element);
                    assert(decreases_to!(*n => n->Element_children));
                    assert(decreases_to!(n->Element_children => n->Element_children[i as int]));
                }
                walk_node(base, &children[i], out);
                i = i + 1;
                proof {
                    assert(m.subrange(0, i as int).subrange(0, i - 1) =~= m.subrange(
                        0,
                        i - 1,
                    ));
                    assert(m.subrange(0, i as int)[i - 1] == node_model(children@[i - 1]));
                    assert(urls_model(out@) =~= urls_model(mid) + forest_refs(base@, m.subrange(
                        0,
                        i as int,
                    )));
                }
            }
            proof {
                assert(m.subrange(0, children@.len() as int) =~= m);
                assert(urls_model(out@) =~= urls_model(old(out)@) + node_refs(base@, n@));
            }
        },
        _ => {
            proof {
                assert(urls_model(out@) =~= urls_model(out@) + node_refs(base@, n@));
            }
        },
    }
}

/// Walks a whole document and returns the typed addresses of every
/// referenced resource, in document order.
#[verifier::loop_isolation(false)]
pub fn walk_dom(base: &Locator, doc: &HtmlDocument) -> (r: Vec<ResourceUrl>)
    ensures
        urls_model(r@) == forest_refs(base@, doc@),
{
    let mut out: Vec<ResourceUrl> = Vec::new();
    let ghost m = doc@;
    proof {
        crate::dom::lemma_nodes_model_entries(doc.nodes@);
        assert(urls_model(out@) =~= Seq::<ResourceUrlModel>::empty());
        assert(m.subrange(0, 0) =~= Seq::<NodeModel>::empty());
        assert(urls_model(out@) =~= forest_refs(base@, m.subrange(0, 0)));
    }
    let mut i: usize = 0;
    while i < doc.nodes.len()
        invariant
            i <= doc.nodes.len(),
            urls_model(out@) == forest_refs(base@, m.subrange(0, i as int)),
        decreases doc.nodes.len() - i,
    {
        walk_node(base, &doc.nodes[i], &mut out);
        i = i + 1;
        proof {
            assert(m.subrange(0, i as int).subrange(0, i - 1) =~= m.subrange(0, i - 1));
            assert(m.subrange(0, i as int)[i - 1] == node_model(doc.nodes@[i - 1]));
            assert(urls_model(out@) =~= forest_refs(base@, m.subrange(0, i as int)));
        }
    }
    proof {
        assert(m.subrange(0, doc.nodes@.len() as int) =~= m);
    }
    out
}


/// What the HTML parser makes of a page text: the models of the
/// children of the document root. HTML parsing never fails and is a
/// function of the text alone.
pub uninterp spec fn parse_html_of(text: Seq<char>) -> Seq<NodeModel>;

#[verifier::external_type_specification]
#[verifier::external_body]
pub struct ExNodeRef(kuchiki::NodeRef);

/// Relies on kuchiki's node accessors: copies one parsed element,
/// attribute by attribute and child by child, into the crate's tree.
#[verifier::external_body]
fn convert_element(n: &kuchiki::NodeRef) -> DomNode {
    let data = n.as_element().unwrap();
    let attrs = data.attributes.borrow();
    DomNode::Element {
        tag: data.name.local.to_string(),
        attrs: attrs.map.iter().map(
            |(k, a)| HtmlAttr { name: k.local.to_string(), value: a.value.clone() },
        ).collect(),
        children: n.children().map(|c| convert_element_or_leaf(&c)).collect(),
    }
}

/// Relies on kuchiki's node accessors: copies one parsed node into
/// the crate's tree, one arm per node kind.
#[verifier::external_body]
fn convert_element_or_leaf(n: &kuchiki::NodeRef) -> DomNode {
    match n.data() {
        kuchiki::NodeData::Element(_) => convert_element(n),
        kuchiki::NodeData::Text(t) => DomNode::Text { text: t.borrow().clone() },
        kuchiki::NodeData::Comment(t) => DomNode::Comment { text: t.borrow().clone() },
        kuchiki::NodeData::ProcessingInstruction(t) => DomNode::Comment { text: t.borrow().1.clone() },
        kuchiki::NodeData::Doctype(d) => DomNode::Doctype {
            name: d.name.clone(), public_id: d.public_id.clone(), system_id: d.system_id.clone(),
        },
        _ => DomNode::Comment { text: String::new() },
    }
}

/// Relies on kuchiki::parse_html, that is html5ever's HTML parsing:
/// parses the page text into a document tree. Parsing never fails —
/// malformed input yields a tree all the same — and the tree depends
/// on the text alone, which [`parse_html_of`] names.
#[verifier::external_body]
pub(crate) fn parse_html_document(text: &str) -> (r: HtmlDocument)
    ensures
        r@ == parse_html_of(text@),
{
    let doc = kuchiki::parse_html().one(text);
    HtmlDocument { nodes: doc.children().map(|c| convert_element_or_leaf(&c)).collect() }
}

/// Parses a page and returns the typed addresses of every resource
/// it references, in document order.
pub fn parse_resource_urls(url_base: &Locator, page: &str) -> (r: Result<
    Vec<ResourceUrl>,
    Error,
>)
    ensures
        r is Ok,
        r matches Ok(v) ==> urls_model(v@) == forest_refs(url_base@, parse_html_of(page@)),
{
    let doc = parse_html_document(page);
    Ok(walk_dom(url_base, &doc))
}

} // verus!
