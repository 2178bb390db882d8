//! Discovered references, fetched payloads, and the resource store.
//!
//! A [`ResourceUrl`] is an address tagged with the kind of content its
//! referencing element expects; a [`Resource`] is the payload a fetch
//! brought back, tagged the same way. The [`ResourceMap`] keys payloads
//! by address; only successful fetches are ever inserted, and a later
//! insertion under the same address overwrites the earlier one.

use crate::base64::b64_encode;
use crate::base64::base64_encode;
use crate::locator::Locator;
use vstd::prelude::*;
use vstd::string::StringExecFns;

verus! {

/// An address tagged with the expected kind of content.
#[derive(Debug)]
pub enum ResourceUrl {
    Javascript(Locator),
    Css(Locator),
    Image(Locator),
}

/// The mathematical value of a tagged address.
pub ghost enum ResourceUrlModel {
    Javascript(Seq<char>),
    Css(Seq<char>),
    Image(Seq<char>),
}

impl View for ResourceUrl {
    type V = ResourceUrlModel;

    open spec fn view(&self) -> ResourceUrlModel {
        match self {
            ResourceUrl::Javascript(l) => ResourceUrlModel::Javascript(l@),
            ResourceUrl::Css(l) => ResourceUrlModel::Css(l@),
            ResourceUrl::Image(l) => ResourceUrlModel::Image(l@),
        }
    }
}

impl ResourceUrl {
    /// The address, without its tag.
    pub fn url(&self) -> (r: &Locator)
        ensures
            r@ == self@.loc(),
    {
        match self {
            ResourceUrl::Javascript(l) => l,
            ResourceUrl::Css(l) => l,
            ResourceUrl::Image(l) => l,
        }
    }
}

impl ResourceUrlModel {
    /// The address, without its tag.
    pub open spec fn loc(self) -> Seq<char> {
        match self {
            ResourceUrlModel::Javascript(u) => u,
            ResourceUrlModel::Css(u) => u,
            ResourceUrlModel::Image(u) => u,
        }
    }
}

impl PartialEq for ResourceUrl {
    fn eq(&self, other: &ResourceUrl) -> (r: bool) {
        match (self, other) {
            (ResourceUrl::Javascript(a), ResourceUrl::Javascript(b)) => a.same_as(b),
            (ResourceUrl::Css(a), ResourceUrl::Css(b)) => a.same_as(b),
            (ResourceUrl::Image(a), ResourceUrl::Image(b)) => a.same_as(b),
            _ => false,
        }
    }
}

impl vstd::std_specs::cmp::PartialEqSpecImpl for ResourceUrl {
    open spec fn obeys_eq_spec() -> bool {
        true
    }

    open spec fn eq_spec(&self, other: &ResourceUrl) -> bool {
        self@ == other@
    }
}

/// The payload of a fetched image: its bytes, and the MIME type the
/// response declared for them (a generic binary type when it declared
/// none).
#[derive(Debug)]
pub struct ImageResource {
    pub data: Vec<u8>,
    pub mimetype: String,
}

/// The mathematical value of an image payload.
pub ghost struct ImageResourceModel {
    pub data: Seq<u8>,
    pub mimetype: Seq<char>,
}

impl View for ImageResource {
    type V = ImageResourceModel;

    open spec fn view(&self) -> ImageResourceModel {
        ImageResourceModel { data: self.data@, mimetype: self.mimetype@ }
    }
}

/// The text an image payload is embedded as: a base64 data URI.
pub open spec fn data_uri_model(img: ImageResourceModel) -> Seq<char> {
    "data:"@ + img.mimetype + ";base64,"@ + b64_encode(img.data)
}

impl ImageResource {
    /// Renders the payload as a data URI carrying its MIME type.
    pub fn to_data_uri(&self) -> (r: String)
        ensures
            r@ == data_uri_model(self@),
    {
        let mut out: String = "data:".to_string();
        out.append(self.mimetype.as_str());
        out.append(";base64,");
        let encoded = base64_encode(&self.data);
        out.append(encoded.as_str());
        out
    }
}

/// A data URI names its scheme first, and decoding its base64 tail
/// gives back exactly the stored bytes.
pub proof fn lemma_data_uri_round_trip(img: ImageResourceModel)
    ensures
        data_uri_model(img).len() == 13 + img.mimetype.len() + crate::base64::b64_encode(
            img.data,
        ).len(),
        data_uri_model(img).subrange(0, 5) == "data:"@,
        crate::base64::b64_decode(
            data_uri_model(img).subrange(
                13 + img.mimetype.len() as int,
                data_uri_model(img).len() as int,
            ),
        ) == Some(img.data),
{
    reveal_strlit("data:");
    reveal_strlit(";base64,");
    assert("data:"@.len() == 5);
    assert(";base64,"@.len() == 8);
    let uri = data_uri_model(img);
    assert(uri.subrange(0, 5) =~= "data:"@);
    assert(uri.subrange(13 + img.mimetype.len() as int, uri.len() as int) =~= crate::base64::b64_encode(
        img.data,
    ));
    crate::base64::lemma_b64_round_trip(img.data);
}

/// A fetched payload, tagged with the kind of content it is.
#[derive(Debug)]
pub enum Resource {
    Javascript(String),
    Css(String),
    Image(ImageResource),
}

/// The mathematical value of a fetched payload.
pub ghost enum ResourceModel {
    Javascript(Seq<char>),
    Css(Seq<char>),
    Image(ImageResourceModel),
}

impl View for Resource {
    type V = ResourceModel;

    open spec fn view(&self) -> ResourceModel {
        match self {
            Resource::Javascript(s) => ResourceModel::Javascript(s@),
            Resource::Css(s) => ResourceModel::Css(s@),
            Resource::Image(i) => ResourceModel::Image(i@),
        }
    }
}

/// The store of fetched payloads, keyed by address, keys unique.
#[derive(Debug)]
pub struct ResourceMap {
    entries: Vec<(Locator, Resource)>,
}

pub open spec fn entry_models(s: Seq<(Locator, Resource)>) -> Map<Seq<char>, ResourceModel>
    decreases s.len(),
{
    if s.len() == 0 {
        Map::empty()
    } else {
        entry_models(s.subrange(0, s.len() - 1)).insert(
            s[s.len() - 1].0@,
            s[s.len() - 1].1@,
        )
    }
}

pub open spec fn keys_distinct(s: Seq<(Locator, Resource)>) -> bool {
    forall|i: int, j: int| 0 <= i < j < s.len() ==> s[i].0@ != s[j].0@
}

/// An address is in the map of a sequence of entries exactly when an
/// entry carries it, and with distinct keys each entry's payload is
/// the one the map holds for its address.
pub proof fn lemma_entry_models(s: Seq<(Locator, Resource)>)
    ensures
        forall|k: Seq<char>|
            entry_models(s).contains_key(k) <==> (exists|i: int|
                0 <= i < s.len() && s[i].0@ == k),
        keys_distinct(s) ==> forall|i: int|
            0 <= i < s.len() ==> entry_models(s).contains_key(#[trigger] s[i].0@)
                && entry_models(s)[s[i].0@] == s[i].1@,
    decreases s.len(),
{
    if s.len() > 0 {
        let head = s.subrange(0, s.len() - 1);
        lemma_entry_models(head);
        assert(forall|k: Seq<char>|
            entry_models(s).contains_key(k) <==> (exists|i: int|
                0 <= i < s.len() && s[i].0@ == k)) by {
            assert forall|k: Seq<char>|
                entry_models(s).contains_key(k) implies (exists|i: int|
                0 <= i < s.len() && s[i].0@ == k) by {
                if k == s[s.len() - 1].0@ {
                    assert(s[s.len() - 1].0@ == k);
                } else {
                    assert(entry_models(head).contains_key(k));
                    let i = choose|i: int| 0 <= i < head.len() && head[i].0@ == k;
                    assert(head[i] == s[i]);
                    assert(s[i].0@ == k);
                }
            }
            assert forall|k: Seq<char>|
                (exists|i: int| 0 <= i < s.len() && s[i].0@ == k) implies entry_models(
                s,
            ).contains_key(k) by {
                let i = choose|i: int| 0 <= i < s.len() && s[i].0@ == k;
                if i < s.len() - 1 {
                    assert(head[i] == s[i]);
                    assert(head[i].0@ == k);
                    assert(entry_models(head).contains_key(k));
                } else {
                    assert(k == s[s.len() - 1].0@);
                }
            }
        }
        if keys_distinct(s) {
            assert(keys_distinct(head));
            assert forall|i: int| 0 <= i < s.len() implies entry_models(s).contains_key(
                #[trigger] s[i].0@,
            ) && entry_models(s)[s[i].0@] == s[i].1@ by {
                if i < s.len() - 1 {
                    assert(head[i] == s[i]);
                    assert(s[i].0@ != s[s.len() - 1].0@);
                }
            }
        }
    }
}

impl View for ResourceMap {
    type V = Map<Seq<char>, ResourceModel>;

    closed spec fn view(&self) -> Map<Seq<char>, ResourceModel> {
        entry_models(self.entries@)
    }
}

impl ResourceMap {
    /// The store never holds two entries for one address.
    pub closed spec fn wf(&self) -> bool {
        keys_distinct(self.entries@)
    }

    /// An empty store.
    pub fn new() -> (r: ResourceMap)
        ensures
            r@ == Map::<Seq<char>, ResourceModel>::empty(),
            r.wf(),
    {
        ResourceMap { entries: Vec::new() }
    }

    /// Inserts a payload under an address; an entry already present
    /// under that address is overwritten.
    #[verifier::loop_isolation(false)]
    pub fn insert(&mut self, key: Locator, value: Resource)
        requires
            old(self).wf(),
        ensures
            final(self).wf(),
            final(self)@ == old(self)@.insert(key@, value@),
    {
        let ghost s0 = self.entries@;
        let mut j: usize = 0;
        while j < self.entries.len()
            invariant
                self.entries@ == s0,
                j <= s0.len(),
                forall|m: int| 0 <= m < j ==> s0[m].0@ != key@,
            decreases s0.len() - j,
        {
            if self.entries[j].0.same_as(&key) {
                self.entries.set(j, (key, value));
                proof {
                    let s1 = self.entries@;
                    lemma_entry_models(s0);
                    lemma_entry_models(s1);
                    assert(keys_distinct(s1));
                    assert forall|k: Seq<char>| #![all_triggers] true implies {
                        (entry_models(s1).contains_key(k) <==> entry_models(s0).insert(
                            s0[j as int].0@,
                            s1[j as int].1@,
                        ).contains_key(k))
                    } by {
                        if entry_models(s1).contains_key(k) {
                            let i = choose|i: int| 0 <= i < s1.len() && s1[i].0@ == k;
                            if i != j {
                                assert(s0[i].0@ == k);
                            }
                        }
                        if entry_models(s0).contains_key(k) {
                            let i = choose|i: int| 0 <= i < s0.len() && s0[i].0@ == k;
                            if i != j {
                                assert(s1[i].0@ == k);
                            }
                        }
                    }
                    assert(self@ =~= old(self)@.insert(key@, value@));
                }
                return ;
            }
            j = j + 1;
        }
        self.entries.push((key, value));
        proof {
            let s1 = self.entries@;
            assert(s1.subrange(0, s1.len() - 1) =~= s0);
            assert(keys_distinct(s1));
        }
    }

    /// The payload stored under an address, if any.
    #[verifier::loop_isolation(false)]
    pub fn get(&self, key: &Locator) -> (r: Option<&Resource>)
        requires
            self.wf(),
        ensures
            match r {
                Some(v) => self@.contains_key(key@) && v@ == self@[key@],
                None => !self@.contains_key(key@),
            },
    {
        proof {
            lemma_entry_models(self.entries@);
        }
        let mut j: usize = 0;
        while j < self.entries.len()
            invariant
                j <= self.entries@.len(),
                forall|m: int| 0 <= m < j ==> self.entries@[m].0@ != key@,
            decreases self.entries@.len() - j,
        {
            if self.entries[j].0.same_as(key) {
                return Some(&self.entries[j].1);
            }
            j = j + 1;
        }
        None
    }
}

} // verus!
