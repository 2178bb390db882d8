//! The document rewriter: the second parse of the page, transformed
//! so that stored resources are embedded inline.
//!
//! Three independent substitutions, fused into one walk of the tree:
//! an `img` element's first `src` attribute becomes a data URI when
//! its address has a stored image; a `link` element that is a
//! stylesheet reference with a stored sheet is detached and a
//! `style` element with the sheet's text is appended as the last
//! child of its parent; a `script` element with a stored body gains
//! that body as a final text child — and loses its `src` attribute
//! in every case, stored or not, since the external address will not
//! be reachable from the archived page. An element whose reference
//! does not resolve, or has no store entry, is left as it stands.

use crate::dom::attrs_model;
use crate::dom::first_attr;
use crate::dom::nodes_model;
use crate::dom::AttrModel;
use crate::dom::DomNode;
use crate::dom::HtmlAttr;
use crate::dom::HtmlDocument;
use crate::dom::NodeModel;
use crate::locator::url_join_of;
use crate::locator::Locator;
use crate::resources::data_uri_model;
use crate::resources::Resource;
use crate::resources::ResourceMap;
use crate::resources::ResourceModel;
use crate::text::str_eq;
use vstd::prelude::*;

verus! {

/// The store of payloads, as the rewriter reads it.
pub type StoreModel = Map<Seq<char>, ResourceModel>;

/// The data URI that replaces an `img` reference, when its value
/// resolves against the base and a stored image exists for it.
pub open spec fn img_src_replacement(v: Seq<char>, base: Seq<char>, store: StoreModel) -> Option<
    Seq<char>,
> {
    match url_join_of(base, v) {
        Some(u) => if store.contains_key(u) {
            match store[u] {
                ResourceModel::Image(img) => Some(data_uri_model(img)),
                _ => None,
            }
        } else {
            None
        },
        None => None,
    }
}

/// The attributes of an `img` element after its pass: the first
/// `src` attribute's value becomes a data URI when one is owed, and
/// everything else stands untouched.
pub open spec fn rewrite_img_attrs(attrs: Seq<AttrModel>, base: Seq<char>, store: StoreModel) -> Seq<
    AttrModel,
>
    decreases attrs,
{
    if attrs.len() == 0 {
        Seq::empty()
    } else if attrs[0].name == "src"@ {
        let kept = match img_src_replacement(attrs[0].value, base, store) {
            Some(uri) => AttrModel { name: attrs[0].name, value: uri },
            None => attrs[0],
        };
        seq![kept] + attrs.subrange(1, attrs.len() as int)
    } else {
        seq![attrs[0]] + rewrite_img_attrs(attrs.subrange(1, attrs.len() as int), base, store)
    }
}

/// The attributes of a `script` element after its pass: the first
/// `src` attribute is removed, present or not, stored or not.
pub open spec fn remove_first_src(attrs: Seq<AttrModel>) -> Seq<AttrModel>
    decreases attrs,
{
    if attrs.len() == 0 {
        Seq::empty()
    } else if attrs[0].name == "src"@ {
        attrs.subrange(1, attrs.len() as int)
    } else {
        seq![attrs[0]] + remove_first_src(attrs.subrange(1, attrs.len() as int))
    }
}

/// The stored script body owed to a `script` element, when its first
/// `src` attribute resolves and a stored script exists for it.
pub open spec fn script_replacement(attrs: Seq<AttrModel>, base: Seq<char>, store: StoreModel) -> Option<
    Seq<char>,
> {
    match first_attr(attrs, "src"@) {
        Some(v) => match url_join_of(base, v) {
            Some(u) => if store.contains_key(u) {
                match store[u] {
                    ResourceModel::Javascript(t) => Some(t),
                    _ => None,
                }
            } else {
                None
            },
            None => None,
        },
        None => None,
    }
}

/// The stored stylesheet owed to a node: only a `link` element whose
/// first `rel` attribute is exactly `stylesheet`, whose first `href`
/// resolves, and whose address has a stored sheet, is owed one.
pub open spec fn link_replacement(n: NodeModel, base: Seq<char>, store: StoreModel) -> Option<
    Seq<char>,
> {
    match n {
        NodeModel::Element { tag, attrs, children } => {
            if tag == "link"@ && first_attr(attrs, "rel"@) == Some("stylesheet"@) {
                match first_attr(attrs, "href"@) {
                    Some(v) => match url_join_of(base, v) {
                        Some(u) => if store.contains_key(u) {
                            match store[u] {
                                ResourceModel::Css(t) => Some(t),
                                _ => None,
                            }
                        } else {
                            None
                        },
                        None => None,
                    },
                    None => None,
                }
            } else {
                None
            }
        },
        _ => None,
    }
}

/// The `style` element that takes a detached stylesheet link's place.
pub open spec fn style_node(css: Seq<char>) -> NodeModel {
    NodeModel::Element {
        tag: "style"@,
        attrs: Seq::empty(),
        children: seq![NodeModel::Text { text: css }],
    }
}

/// One node after rewriting. A stylesheet link is not handled here —
/// its replacement is the business of the list that contains it.
pub open spec fn rewrite_node_m(n: NodeModel, base: Seq<char>, store: StoreModel) -> NodeModel
    decreases n, 2int,
{
    match n {
        NodeModel::Element { tag, attrs, children } => {
            let cs = rewrite_children_m(children, base, store);
            if tag == "img"@ {
                NodeModel::Element {
                    tag,
                    attrs: rewrite_img_attrs(attrs, base, store),
                    children: cs,
                }
            } else if tag == "script"@ {
                let body = match script_replacement(attrs, base, store) {
                    Some(t) => cs.push(NodeModel::Text { text: t }),
                    None => cs,
                };
                NodeModel::Element { tag, attrs: remove_first_src(attrs), children: body }
            } else {
                NodeModel::Element { tag, attrs, children: cs }
            }
        },
        _ => n,
    }
}

/// The children that stay in place, in order: every child but the
/// replaced stylesheet links, each rewritten.
pub open spec fn kept_children(ns: Seq<NodeModel>, base: Seq<char>, store: StoreModel) -> Seq<
    NodeModel,
>
    decreases ns, 0int,
{
    if ns.len() == 0 {
        Seq::empty()
    } else {
        let head = kept_children(ns.subrange(0, ns.len() - 1), base, store);
        if link_replacement(ns[ns.len() - 1], base, store) is Some {
            head
        } else {
            head + seq![rewrite_node_m(ns[ns.len() - 1], base, store)]
        }
    }
}

/// The `style` elements appended at the end, one per replaced
/// stylesheet link, in the links' order.
pub open spec fn appended_styles(ns: Seq<NodeModel>, base: Seq<char>, store: StoreModel) -> Seq<
    NodeModel,
>
    decreases ns, 0int,
{
    if ns.len() == 0 {
        Seq::empty()
    } else {
        let head = appended_styles(ns.subrange(0, ns.len() - 1), base, store);
        match link_replacement(ns[ns.len() - 1], base, store) {
            Some(css) => head + seq![style_node(css)],
            None => head,
        }
    }
}

/// A list of sibling nodes after rewriting: the kept children in
/// their order, then the appended `style` elements.
pub open spec fn rewrite_children_m(ns: Seq<NodeModel>, base: Seq<char>, store: StoreModel) -> Seq<
    NodeModel,
>
    decreases ns, 1int,
{
    kept_children(ns, base, store) + appended_styles(ns, base, store)
}

/// A name that no attribute of a list bears is not found in it.
proof fn lemma_first_attr_absent(attrs: Seq<AttrModel>, name: Seq<char>)
    requires
        forall|i: int| 0 <= i < attrs.len() ==> attrs[i].name != name,
    ensures
        first_attr(attrs, name) is None,
    decreases attrs.len(),
{
    if attrs.len() > 0 {
        lemma_first_attr_absent(attrs.subrange(1, attrs.len() as int), name);
    }
}

/// After the `script` pass, an element that carried at most one
/// `src` attribute carries none.
pub proof fn lemma_src_removed(attrs: Seq<AttrModel>)
    requires
        forall|i: int, j: int|
            (0 <= i < attrs.len() && 0 <= j < attrs.len() && attrs[i].name == "src"@
                && attrs[j].name == "src"@) ==> i == j,
    ensures
        first_attr(remove_first_src(attrs), "src"@) is None,
    decreases attrs.len(),
{
    if attrs.len() > 0 {
        let tail = attrs.subrange(1, attrs.len() as int);
        if attrs[0].name == "src"@ {
            assert(forall|i: int| 0 <= i < tail.len() ==> tail[i].name != "src"@) by {
                assert(forall|i: int| 0 <= i < tail.len() ==> tail[i] == attrs[i + 1]);
            }
            lemma_first_attr_absent(tail, "src"@);
        } else {
            lemma_src_removed(tail);
            let r = remove_first_src(attrs);
            assert(r == seq![attrs[0]] + remove_first_src(tail));
            assert(r.subrange(1, r.len() as int) =~= remove_first_src(tail));
        }
    }
}

/// A `script` element whose reference has a stored body is rewritten
/// to carry that body as a new last text child, its `src` attribute
/// removed.
pub proof fn lemma_script_inlined(
    attrs: Seq<AttrModel>,
    children: Seq<NodeModel>,
    base: Seq<char>,
    store: StoreModel,
    body: Seq<char>,
)
    requires
        script_replacement(attrs, base, store) == Some(body),
    ensures
        rewrite_node_m(
            NodeModel::Element { tag: "script"@, attrs, children },
            base,
            store,
        ) == (NodeModel::Element {
            tag: "script"@,
            attrs: remove_first_src(attrs),
            children: rewrite_children_m(children, base, store).push(
                NodeModel::Text { text: body },
            ),
        }),
{
    proof_distinct_tags();
}

/// A `script` element whose fetch was skipped still loses its `src`
/// attribute, and gains nothing.
pub proof fn lemma_script_src_dropped(
    attrs: Seq<AttrModel>,
    children: Seq<NodeModel>,
    base: Seq<char>,
    store: StoreModel,
)
    requires
        script_replacement(attrs, base, store) is None,
    ensures
        rewrite_node_m(
            NodeModel::Element { tag: "script"@, attrs, children },
            base,
            store,
        ) == (NodeModel::Element {
            tag: "script"@,
            attrs: remove_first_src(attrs),
            children: rewrite_children_m(children, base, store),
        }),
{
    proof_distinct_tags();
}

/// The three rewritten tag names differ from one another.
proof fn proof_distinct_tags()
    ensures
        "img"@ != "script"@,
        "img"@ != "link"@,
        "script"@ != "link"@,
        "script"@ != "img"@,
{
    reveal_strlit("img");
    reveal_strlit("script");
    reveal_strlit("link");
    assert("img"@.len() == 3);
    assert("script"@.len() == 6);
    assert("link"@.len() == 4);
}

/// An `img` element whose first reference has a stored image shows
/// the image's data URI as that reference's value after rewriting.
pub proof fn lemma_img_src_attr(
    attrs: Seq<AttrModel>,
    base: Seq<char>,
    store: StoreModel,
    v: Seq<char>,
    uri: Seq<char>,
)
    requires
        first_attr(attrs, "src"@) == Some(v),
        img_src_replacement(v, base, store) == Some(uri),
    ensures
        first_attr(rewrite_img_attrs(attrs, base, store), "src"@) == Some(uri),
    decreases attrs.len(),
{
    let tail = attrs.subrange(1, attrs.len() as int);
    if attrs[0].name == "src"@ {
        let r = rewrite_img_attrs(attrs, base, store);
        assert(r[0] == (AttrModel { name: attrs[0].name, value: uri }));
    } else {
        lemma_img_src_attr(tail, base, store, v, uri);
        let r = rewrite_img_attrs(attrs, base, store);
        assert(r == seq![attrs[0]] + rewrite_img_attrs(tail, base, store));
        assert(r.subrange(1, r.len() as int) =~= rewrite_img_attrs(tail, base, store));
    }
}

/// An `img` element is rewritten attribute-wise only: its tag stays,
/// its children are rewritten as any element's are.
pub proof fn lemma_img_rewritten(
    attrs: Seq<AttrModel>,
    children: Seq<NodeModel>,
    base: Seq<char>,
    store: StoreModel,
)
    ensures
        rewrite_node_m(NodeModel::Element { tag: "img"@, attrs, children }, base, store)
            == (NodeModel::Element {
            tag: "img"@,
            attrs: rewrite_img_attrs(attrs, base, store),
            children: rewrite_children_m(children, base, store),
        }),
{
}

/// In a list with no replaced stylesheet link, rewriting keeps every
/// child in place, each rewritten, and appends nothing.
pub proof fn lemma_no_links_kept(ns: Seq<NodeModel>, base: Seq<char>, store: StoreModel)
    requires
        forall|j: int| 0 <= j < ns.len() ==> link_replacement(#[trigger] ns[j], base, store) is None,
    ensures
        kept_children(ns, base, store) == ns.map_values(
            |c: NodeModel| rewrite_node_m(c, base, store),
        ),
        appended_styles(ns, base, store) == Seq::<NodeModel>::empty(),
    decreases ns.len(),
{
    if ns.len() == 0 {
        assert(kept_children(ns, base, store) =~= ns.map_values(
            |c: NodeModel| rewrite_node_m(c, base, store),
        ));
    } else {
        let head = ns.subrange(0, ns.len() - 1);
        assert(forall|j: int| 0 <= j < head.len() ==> #[trigger] head[j] == ns[j]);
        lemma_no_links_kept(head, base, store);
        assert(kept_children(ns, base, store) =~= ns.map_values(
            |c: NodeModel| rewrite_node_m(c, base, store),
        ));
    }
}

/// In a list whose only replaced stylesheet link stands at position
/// `i`, the kept children are all the others, each rewritten, and
/// one style element carrying the stored sheet is appended.
pub proof fn lemma_one_link_components(
    ns: Seq<NodeModel>,
    i: int,
    base: Seq<char>,
    store: StoreModel,
    css: Seq<char>,
)
    requires
        0 <= i < ns.len(),
        link_replacement(ns[i], base, store) == Some(css),
        forall|j: int|
            0 <= j < ns.len() && j != i ==> link_replacement(
                #[trigger] ns[j],
                base,
                store,
            ) is None,
    ensures
        kept_children(ns, base, store) == ns.remove(i).map_values(
            |c: NodeModel| rewrite_node_m(c, base, store),
        ),
        appended_styles(ns, base, store) == seq![style_node(css)],
    decreases ns.len(),
{
    let head = ns.subrange(0, ns.len() - 1);
    let f = |c: NodeModel| rewrite_node_m(c, base, store);
    assert(forall|j: int| 0 <= j < head.len() ==> #[trigger] head[j] == ns[j]);
    if i == ns.len() - 1 {
        lemma_no_links_kept(head, base, store);
        assert(ns.remove(i) =~= head);
        assert(kept_children(ns, base, store) == head.map_values(f));
        assert(appended_styles(ns, base, store) =~= seq![style_node(css)]);
    } else {
        lemma_one_link_components(head, i, base, store, css);
        assert(ns.remove(i) =~= head.remove(i) + seq![ns[ns.len() - 1]]);
        assert(ns.remove(i).map_values(f) =~= head.remove(i).map_values(f) + seq![
            f(ns[ns.len() - 1]),
        ]);
        assert(kept_children(ns, base, store) == head.remove(i).map_values(f) + seq![
            rewrite_node_m(ns[ns.len() - 1], base, store),
        ]);
    }
}

/// In a list of siblings holding exactly one replaced stylesheet
/// link, rewriting keeps every other child in order, each rewritten,
/// drops the link, and appends one style element with the stored
/// sheet's text where the link's siblings end.
pub proof fn lemma_stylesheet_inlined(
    ns: Seq<NodeModel>,
    i: int,
    base: Seq<char>,
    store: StoreModel,
    css: Seq<char>,
)
    requires
        0 <= i < ns.len(),
        link_replacement(ns[i], base, store) == Some(css),
        forall|j: int|
            0 <= j < ns.len() && j != i ==> link_replacement(
                #[trigger] ns[j],
                base,
                store,
            ) is None,
    ensures
        rewrite_children_m(ns, base, store) == ns.remove(i).map_values(
            |c: NodeModel| rewrite_node_m(c, base, store),
        ) + seq![style_node(css)],
{
    lemma_one_link_components(ns, i, base, store, css);
}

/// Looks up the stored script body owed to a `script` element.
fn script_replacement_x(attrs: &Vec<HtmlAttr>, base: &Locator, store: &ResourceMap) -> (r:
    Option<String>)
    requires
        store.wf(),
    ensures
        match r {
            Some(t) => script_replacement(attrs_model(attrs@), base@, store@) == Some(t@),
            None => script_replacement(attrs_model(attrs@), base@, store@) is None,
        },
{
    match crate::dom::find_attr(attrs, "src") {
        Some(v) => match base.join_opt(v.as_str()) {
            Some(u) => match store.get(&u) {
                Some(Resource::Javascript(t)) => Some(t.clone()),
                _ => None,
            },
            None => None,
        },
        None => None,
    }
}

/// Looks up the stored stylesheet owed to a node.
fn link_replacement_x(n: &DomNode, base: &Locator, store: &ResourceMap) -> (r: Option<String>)
    requires
        store.wf(),
    ensures
        match r {
            Some(t) => link_replacement(n@, base@, store@) == Some(t@),
            None => link_replacement(n@, base@, store@) is None,
        },
{
    match n {
        DomNode::Element { tag, attrs, .. } => {
            if !str_eq(tag.as_str(), "link") {
                return None;
            }
            let is_sheet = match crate::dom::find_attr(attrs, "rel") {
                Some(v) => str_eq(v.as_str(), "stylesheet"),
                None => false,
            };
            if !is_sheet {
                return None;
            }
            match crate::dom::find_attr(attrs, "href") {
                Some(v) => match base.join_opt(v.as_str()) {
                    Some(u) => match store.get(&u) {
                        Some(Resource::Css(t)) => Some(t.clone()),
                        _ => None,
                    },
                    None => None,
                },
                None => None,
            }
        },
        _ => None,
    }
}

/// Copies an attribute list.
#[verifier::loop_isolation(false)]
fn clone_attrs(attrs: &Vec<HtmlAttr>) -> (r: Vec<HtmlAttr>)
    ensures
        attrs_model(r@) == attrs_model(attrs@),
{
    let mut out: Vec<HtmlAttr> = Vec::new();
    let mut i: usize = 0;
    while i < attrs.len()
        invariant
            i <= attrs.len(),
            out@.len() == i,
            forall|j: int| 0 <= j < i ==> out@[j]@ == attrs@[j]@,
        decreases attrs.len() - i,
    {
        out.push(HtmlAttr { name: attrs[i].name.clone(), value: attrs[i].value.clone() });
        i = i + 1;
    }
    proof {
        assert(attrs_model(out@) =~= attrs_model(attrs@));
    }
    out
}

/// Rewrites the attributes of an `img` element.
#[verifier::loop_isolation(false)]
fn rewrite_img_attrs_x(attrs: &Vec<HtmlAttr>, base: &Locator, store: &ResourceMap) -> (r: Vec<
    HtmlAttr,
>)
    requires
        store.wf(),
    ensures
        attrs_model(r@) == rewrite_img_attrs(attrs_model(attrs@), base@, store@),
{
    let ghost am = attrs_model(attrs@);
    let mut out: Vec<HtmlAttr> = Vec::new();
    let mut done: bool = false;
    proof {
        assert(am.subrange(0, am.len() as int) =~= am);
        assert(attrs_model(out@) =~= Seq::<AttrModel>::empty());
    }
    let mut i: usize = 0;
    while i < attrs.len()
        invariant
            i <= attrs.len(),
            rewrite_img_attrs(am, base@, store@) == attrs_model(out@) + (if done {
                am.subrange(i as int, am.len() as int)
            } else {
                rewrite_img_attrs(am.subrange(i as int, am.len() as int), base@, store@)
            }),
        decreases attrs.len() - i,
    {
        let ghost suffix = am.subrange(i as int, am.len() as int);
        proof {
            assert(suffix.subrange(1, suffix.len() as int) =~= am.subrange(
                i + 1,
                am.len() as int,
            ));
        }
        if !done && str_eq(attrs[i].name.as_str(), "src") {
            done = true;
            let replaced: Option<String> = match base.join_opt(attrs[i].value.as_str()) {
                Some(u) => match store.get(&u) {
                    Some(Resource::Image(img)) => Some(img.to_data_uri()),
                    _ => None,
                },
                None => None,
            };
            match replaced {
                Some(uri) => {
                    out.push(HtmlAttr { name: attrs[i].name.clone(), value: uri });
                },
                None => {
                    out.push(
                        HtmlAttr {
                            name: attrs[i].name.clone(),
                            value: attrs[i].value.clone(),
                        },
                    );
                },
            }
        } else {
            out.push(HtmlAttr { name: attrs[i].name.clone(), value: attrs[i].value.clone() });
        }
        i = i + 1;
        proof {
            assert(attrs_model(out@) =~= attrs_model(out@.subrange(0, out@.len() - 1)).push(
                out@[out@.len() - 1]@,
            ));
            assert(out@.subrange(0, out@.len() - 1) =~= out@.drop_last());
            if done {
                assert(rewrite_img_attrs(am, base@, store@) =~= attrs_model(out@)
                    + am.subrange(i as int, am.len() as int));
            } else {
                assert(rewrite_img_attrs(am, base@, store@) =~= attrs_model(out@)
                    + rewrite_img_attrs(
                    am.subrange(i as int, am.len() as int),
                    base@,
                    store@,
                ));
            }
        }
    }
    proof {
        assert(am.subrange(am.len() as int, am.len() as int) =~= Seq::<AttrModel>::empty());
        assert(attrs_model(out@) =~= rewrite_img_attrs(am, base@, store@));
    }
    out
}

/// Removes the first `src` attribute of a `script` element.
#[verifier::loop_isolation(false)]
fn remove_first_src_x(attrs: &Vec<HtmlAttr>) -> (r: Vec<HtmlAttr>)
    ensures
        attrs_model(r@) == remove_first_src(attrs_model(attrs@)),
{
    let ghost am = attrs_model(attrs@);
    let mut out: Vec<HtmlAttr> = Vec::new();
    let mut done: bool = false;
    proof {
        assert(am.subrange(0, am.len() as int) =~= am);
        assert(attrs_model(out@) =~= Seq::<AttrModel>::empty());
    }
    let mut i: usize = 0;
    while i < attrs.len()
        invariant
            i <= attrs.len(),
            remove_first_src(am) == attrs_model(out@) + (if done {
                am.subrange(i as int, am.len() as int)
            } else {
                remove_first_src(am.subrange(i as int, am.len() as int))
            }),
        decreases attrs.len() - i,
    {
        let ghost suffix = am.subrange(i as int, am.len() as int);
        proof {
            assert(suffix.subrange(1, suffix.len() as int) =~= am.subrange(
                i + 1,
                am.len() as int,
            ));
        }
        if !done && str_eq(attrs[i].name.as_str(), "src") {
            done = true;
        } else {
            out.push(HtmlAttr { name: attrs[i].name.clone(), value: attrs[i].value.clone() });
            proof {
                assert(attrs_model(out@) =~= attrs_model(out@.subrange(0, out@.len() - 1)).push(
                    out@[out@.len() - 1]@,
                ));
                assert(out@.subrange(0, out@.len() - 1) =~= out@.drop_last());
            }
        }
        i = i + 1;
        proof {
            if done {
                assert(remove_first_src(am) =~= attrs_model(out@) + am.subrange(
                    i as int,
                    am.len() as int,
                ));
            } else {
                assert(remove_first_src(am) =~= attrs_model(out@) + remove_first_src(
                    am.subrange(i as int, am.len() as int),
                ));
            }
        }
    }
    proof {
        assert(am.subrange(am.len() as int, am.len() as int) =~= Seq::<AttrModel>::empty());
        assert(attrs_model(out@) =~= remove_first_src(am));
    }
    out
}

/// Rewrites one node, as [`rewrite_node_m`] says.
#[verifier::loop_isolation(false)]
fn rewrite_node_x(n: &DomNode, base: &Locator, store: &ResourceMap) -> (r: DomNode)
    requires
        store.wf(),
    ensures
        r@ == rewrite_node_m(n@, base@, store@),
    decreases *n, 1int,
{
    match n {
        DomNode::Element { tag, attrs, children } => {
            proof {
                assert(*n is Element);
                assert(decreases_to!(*n => n->Element_children));
                assert(decreases_to!(n->Element_children => n->Element_children@));
            }
            proof {
                assert(n@ == (NodeModel::Element {
                    tag: tag@,
                    attrs: attrs_model(attrs@),
                    children: nodes_model(children@),
                }));
            }
            let new_children = rewrite_children_x(children, base, store);
            if str_eq(tag.as_str(), "img") {
                DomNode::Element {
                    tag: tag.clone(),
                    attrs: rewrite_img_attrs_x(attrs, base, store),
                    children: new_children,
                }
            } else if str_eq(tag.as_str(), "script") {
                let mut body = new_children;
                let ghost body0 = body@;
                match script_replacement_x(attrs, base, store) {
                    Some(t) => {
                        body.push(DomNode::Text { text: t });
                        proof {
                            assert(body@.drop_last() =~= body0);
                            assert(nodes_model(body@) =~= nodes_model(body@.drop_last()).push(
                                body@[body@.len() - 1]@,
                            )) by {
                                crate::dom::lemma_nodes_model_entries(body@);
                                crate::dom::lemma_nodes_model_entries(body@.drop_last());
                            }
                        }
                    },
                    None => {
                    },
                }
                DomNode::Element {
                    tag: tag.clone(),
                    attrs: remove_first_src_x(attrs),
                    children: body,
                }
            } else {
                DomNode::Element {
                    tag: tag.clone(),
                    attrs: clone_attrs(attrs),
                    children: new_children,
                }
            }
        },
        DomNode::Text { text } => DomNode::Text { text: text.clone() },
        DomNode::Comment { text } => DomNode::Comment { text: text.clone() },
        DomNode::Doctype { name, public_id, system_id } => DomNode::Doctype {
            name: name.clone(),
            public_id: public_id.clone(),
            system_id: system_id.clone(),
        },
    }
}

/// Rewrites a list of sibling nodes, as [`rewrite_children_m`] says.
#[verifier::loop_isolation(false)]
pub(crate) fn rewrite_children_x(children: &Vec<DomNode>, base: &Locator, store: &ResourceMap) -> (r:
    Vec<DomNode>)
    requires
        store.wf(),
    ensures
        nodes_model(r@) == rewrite_children_m(nodes_model(children@), base@, store@),
    decreases children@, 0int,
{
    let ghost m = nodes_model(children@);
    proof {
        crate::dom::lemma_nodes_model_entries(children@);
    }
    let mut kept: Vec<DomNode> = Vec::new();
    let mut styles: Vec<DomNode> = Vec::new();
    proof {
        assert(m.subrange(0, 0) =~= Seq::<NodeModel>::empty());
        assert(nodes_model(kept@) =~= kept_children(m.subrange(0, 0), base@, store@));
        assert(nodes_model(styles@) =~= appended_styles(m.subrange(0, 0), base@, store@));
    }
    let mut i: usize = 0;
    while i < children.len()
        invariant
            i <= children.len(),
            nodes_model(kept@) == kept_children(m.subrange(0, i as int), base@, store@),
            nodes_model(styles@) == appended_styles(m.subrange(0, i as int), base@, store@),
        decreases children.len() - i,
    {
        proof {
            assert(m.subrange(0, i + 1).subrange(0, i as int) =~= m.subrange(0, i as int));
            assert(m.subrange(0, i + 1)[i as int] == m[i as int]);
        }
        match link_replacement_x(&children[i], base, store) {
            Some(css) => {
                let ghost cssv = css@;
                let mut style_children: Vec<DomNode> = Vec::new();
                style_children.push(DomNode::Text { text: css });
                let style_elem = DomNode::Element {
                    tag: "style".to_string(),
                    attrs: Vec::new(),
                    children: style_children,
                };
                proof {
                    assert(attrs_model(style_elem->Element_attrs@) =~= Seq::<
                        AttrModel,
                    >::empty());
                    assert(style_elem->Element_children@.len() == 1);
                    assert(style_elem->Element_children@[0]@ == (NodeModel::Text {
                        text: cssv,
                    }));
                    assert(style_elem->Element_children@.subrange(1, 1) =~= Seq::<
                        DomNode,
                    >::empty());
                    assert(nodes_model(style_elem->Element_children@) =~= seq![
                        NodeModel::Text { text: cssv },
                    ]);
                    assert(style_elem@ == style_node(cssv));
                }
                let ghost styles0 = styles@;
                styles.push(style_elem);
                proof {
                    assert(styles@.drop_last() =~= styles0);
                    assert(nodes_model(styles@) =~= nodes_model(styles@.drop_last()).push(
                        styles@[styles@.len() - 1]@,
                    )) by {
                        crate::dom::lemma_nodes_model_entries(styles@);
                        crate::dom::lemma_nodes_model_entries(styles@.drop_last());
                    }
                }
            },
            None => {
                proof {
                    assert(decreases_to!(children@ => children@[i as int]));
                }
                let rewritten = rewrite_node_x(&children[i], base, store);
                let ghost kept0 = kept@;
                kept.push(rewritten);
                proof {
                    assert(kept@.drop_last() =~= kept0);
                    assert(nodes_model(kept@) =~= nodes_model(kept@.drop_last()).push(
                        kept@[kept@.len() - 1]@,
                    )) by {
                        crate::dom::lemma_nodes_model_entries(kept@);
                        crate::dom::lemma_nodes_model_entries(kept@.drop_last());
                    }
                }
            },
        }
        i = i + 1;
        proof {
            assert(nodes_model(kept@) =~= kept_children(m.subrange(0, i as int), base@, store@));
            assert(nodes_model(styles@) =~= appended_styles(
                m.subrange(0, i as int),
                base@,
                store@,
            ));
        }
    }
    proof {
        assert(m.subrange(0, children@.len() as int) =~= m);
    }
    let ghost kept_snapshot = kept@;
    let ghost styles_snapshot = styles@;
    let mut out = kept;
    let mut tail = styles;
    out.append(&mut tail);
    proof {
        crate::dom::lemma_nodes_model_concat(kept_snapshot, styles_snapshot);
    }
    out
}

} // verus!
