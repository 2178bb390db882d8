//! The decisions of the resource fetch pass.
//!
//! The transport itself — issuing a request and reading status and
//! body — is the caller's: it hands every answer over as a plain
//! [`FetchResponse`]. This module holds the verified half of the
//! pass: how one answer is classified by the kind of address that
//! provoked it, and how a whole sequence of answers, taken strictly
//! in discovery order, fills the resource store. An answer whose
//! status is not success (exactly 200) stores nothing.

use crate::resources::ImageResource;
use crate::resources::ImageResourceModel;
use crate::resources::Resource;
use crate::resources::ResourceMap;
use crate::resources::ResourceModel;
use crate::resources::ResourceUrl;
use crate::resources::ResourceUrlModel;
use vstd::prelude::*;
use vstd::string::StrSliceExecFns;
use vstd::string::StringExecFns;

verus! {

/// The HTTP status that counts as success.
pub const SUCCESS_STATUS: u16 = 200;

/// One transport answer, reduced to plain values: the status code,
/// the body as bytes and as decoded text, and the declared content
/// type (empty when the response declared none).
#[derive(Debug)]
pub struct FetchResponse {
    pub status: u16,
    pub body: Vec<u8>,
    pub text: String,
    pub content_type: String,
}

/// The mathematical value of a transport answer.
pub ghost struct FetchResponseModel {
    pub status: u16,
    pub body: Seq<u8>,
    pub text: Seq<char>,
    pub content_type: Seq<char>,
}

impl View for FetchResponse {
    type V = FetchResponseModel;

    open spec fn view(&self) -> FetchResponseModel {
        FetchResponseModel {
            status: self.status,
            body: self.body@,
            text: self.text@,
            content_type: self.content_type@,
        }
    }
}

/// The models of a sequence of answers.
pub open spec fn responses_model(s: Seq<FetchResponse>) -> Seq<FetchResponseModel> {
    s.map_values(|r: FetchResponse| r@)
}

/// The MIME type stored for an image: what the response declared, or
/// a generic binary type when it declared none.
pub open spec fn stored_mimetype(content_type: Seq<char>) -> Seq<char> {
    if content_type.len() == 0 {
        "application/octet-stream"@
    } else {
        content_type
    }
}

/// How one answer changes the store: nothing unless the status is
/// success; otherwise the payload named by the address's kind is
/// stored under the address, overwriting an earlier entry.
pub open spec fn store_step(
    m: Map<Seq<char>, ResourceModel>,
    target: ResourceUrlModel,
    resp: FetchResponseModel,
) -> Map<Seq<char>, ResourceModel> {
    if resp.status != SUCCESS_STATUS {
        m
    } else {
        match target {
            ResourceUrlModel::Image(u) => m.insert(
                u,
                ResourceModel::Image(
                    ImageResourceModel {
                        data: resp.body,
                        mimetype: stored_mimetype(resp.content_type),
                    },
                ),
            ),
            ResourceUrlModel::Css(u) => m.insert(u, ResourceModel::Css(resp.text)),
            ResourceUrlModel::Javascript(u) => m.insert(
                u,
                ResourceModel::Javascript(resp.text),
            ),
        }
    }
}

/// The store that a sequence of answers builds, taken in order; a
/// later success under an address already stored overwrites it.
pub open spec fn store_all(
    m: Map<Seq<char>, ResourceModel>,
    targets: Seq<ResourceUrlModel>,
    resps: Seq<FetchResponseModel>,
) -> Map<Seq<char>, ResourceModel>
    decreases targets.len(),
{
    if targets.len() == 0 || targets.len() != resps.len() {
        m
    } else {
        store_step(
            store_all(
                m,
                targets.subrange(0, targets.len() - 1),
                resps.subrange(0, resps.len() - 1),
            ),
            targets[targets.len() - 1],
            resps[resps.len() - 1],
        )
    }
}

/// Classifies one answer and stores its payload, as [`store_step`]
/// says.
pub fn store_response(map: &mut ResourceMap, target: &ResourceUrl, response: FetchResponse)
    requires
        old(map).wf(),
    ensures
        final(map).wf(),
        final(map)@ == store_step(old(map)@, target@, response@),
{
    if response.status != SUCCESS_STATUS {
        return ;
    }
    match target {
        ResourceUrl::Image(u) => {
            let mimetype: String = if response.content_type.as_str().unicode_len() == 0 {
                "application/octet-stream".to_string()
            } else {
                response.content_type
            };
            map.insert(
                u.duplicate(),
                Resource::Image(ImageResource { data: response.body, mimetype }),
            );
        },
        ResourceUrl::Css(u) => {
            map.insert(u.duplicate(), Resource::Css(response.text));
        },
        ResourceUrl::Javascript(u) => {
            map.insert(u.duplicate(), Resource::Javascript(response.text));
        },
    }
}

/// Builds the resource store from the discovered addresses and the
/// transport's answers to them, one answer per address, in order.
#[verifier::loop_isolation(false)]
pub fn build_resource_map(urls: &Vec<ResourceUrl>, responses: Vec<FetchResponse>) -> (r:
    ResourceMap)
    requires
        urls@.len() == responses@.len(),
    ensures
        r.wf(),
        r@ == store_all(
            Map::empty(),
            crate::parsing::urls_model(urls@),
            responses_model(responses@),
        ),
{
    let ghost resp0 = responses@;
    let ghost um = crate::parsing::urls_model(urls@);
    let ghost rm = responses_model(responses@);
    let mut remaining = responses;
    let mut map = ResourceMap::new();
    proof {
        assert(um.subrange(0, 0) =~= Seq::<ResourceUrlModel>::empty());
        assert(rm.subrange(0, 0) =~= Seq::<FetchResponseModel>::empty());
    }
    let mut i: usize = 0;
    while i < urls.len()
        invariant
            i <= urls@.len(),
            remaining@.len() == urls@.len() - i,
            forall|j: int| 0 <= j < remaining@.len() ==> remaining@[j] == resp0[i + j],
            map.wf(),
            map@ == store_all(Map::empty(), um.subrange(0, i as int), rm.subrange(0, i as int)),
        decreases urls@.len() - i,
    {
        let response = remaining.remove(0);
        store_response(&mut map, &urls[i], response);
        i = i + 1;
        proof {
            assert(um.subrange(0, i as int).subrange(0, i - 1) =~= um.subrange(0, i - 1));
            assert(rm.subrange(0, i as int).subrange(0, i - 1) =~= rm.subrange(0, i - 1));
            assert(map@ == store_all(Map::empty(), um.subrange(0, i as int), rm.subrange(
                0,
                i as int,
            )));
        }
    }
    proof {
        assert(um.subrange(0, um.len() as int) =~= um);
        assert(rm.subrange(0, rm.len() as int) =~= rm);
    }
    map
}

} // verus!
