//! What the WHIP proxy hands on: laws on the requests that go to an endpoint
//! and the responses that come back.

use crate::http::HeaderInfo;
use crate::json::JsonTree;
use crate::sdp;
use crate::sequences;
use crate::text;
use crate::whip;
use crate::whip::{ContentInfo, Headers, ProxyFailure};
use vstd::prelude::*;

verus! {

/// An offer goes to the endpoint at its port, with its content type and the
/// client's credentials. Its body goes on as it came, but for redundancy codecs
/// in a session description.
pub proof fn offers_go_on_as_they_came(
    port: u16,
    content_type: HeaderInfo,
    authorization: Option<ContentInfo>,
    body: ContentInfo,
)
    ensures
        whip::offer_request(Some(port), content_type, authorization, body) matches Ok(request) && {
            &&& request.url == "http://127.0.0.1:"@ + text::decimal(port as nat)
                + "/whip/endpoint"@
            &&& content_type matches HeaderInfo::Value(s) ==> request.content_type == s
            &&& !(content_type is Value) ==> request.content_type == "application/sdp"@
            &&& request.authorization == authorization
            &&& body is Binary ==> request.body == body
            &&& !text::contains_text(request.content_type, "sdp"@) ==> request.body == body
            &&& body matches ContentInfo::Text(s) ==> text::contains_text(
                request.content_type,
                "sdp"@,
            ) ==> request.body == ContentInfo::Text(sdp::stripped_offer(s))
        },
{
}

/// Trickled candidates go to their session as they came, and carry no
/// credentials on.
pub proof fn candidates_go_on_as_they_came(
    port: u16,
    resource: Seq<char>,
    content_type: HeaderInfo,
    body: ContentInfo,
)
    ensures
        whip::trickle_request(Some(port), resource, content_type, body) matches Ok(request) && {
            &&& request.url == "http://127.0.0.1:"@ + text::decimal(port as nat)
                + "/whip/resource/"@ + resource
            &&& content_type matches HeaderInfo::Value(s) ==> request.content_type == s
            &&& !(content_type is Value) ==> request.content_type
                == "application/trickle-ice-sdpfrag"@
            &&& request.authorization is None
            &&& request.body == body
        },
        whip::session_url(port, resource) == "http://127.0.0.1:"@ + text::decimal(port as nat)
            + "/whip/resource/"@ + resource,
{
}

/// A header that clients get to see, by its name in lower case.
pub open spec fn is_for_clients(name: Seq<char>) -> bool {
    name == "content-type"@ || name == "link"@ || name == "accept-patch"@ || name == "etag"@
}

/// The answer to an offer comes back with its status, and with those of its
/// headers that clients get to see; no other comes through. Its body comes back
/// with feedback and hints added where it is text, and as it is where not.
pub proof fn answers_come_back_with_their_headers(
    endpoint_id: Seq<char>,
    status: u16,
    location: HeaderInfo,
    headers: Headers,
    body: ContentInfo,
    k: int,
)
    ensures
        ({
            let response = whip::offer_response(endpoint_id, status, location, headers, body);
            &&& response.status == status
            &&& body is Binary ==> response.body == body
            &&& body matches ContentInfo::Text(s) ==> response.body == ContentInfo::Text(
                sdp::with_hints(sdp::with_remb(s)),
            )
            &&& 0 <= k < headers.len() && is_for_clients(text::lowercase(headers[k].0))
                ==> response.headers.contains(headers[k])
            &&& 0 <= k < response.headers.len() ==> {
                ||| response.headers[k].0 == "Location"@ && location is Value
                ||| headers.contains(response.headers[k]) && is_for_clients(
                    text::lowercase(response.headers[k].0),
                )
                ||| is_for_other_sites(response.headers[k])
            }
            &&& location matches HeaderInfo::Value(s) ==> response.headers.contains(
                ("Location"@, ContentInfo::Text(whip::public_location(endpoint_id, s))),
            )
            &&& response.headers.contains(
                ("Access-Control-Allow-Origin"@, ContentInfo::Text("*"@)),
            )
            &&& response.headers.contains(
                (
                    "Access-Control-Expose-Headers"@,
                    ContentInfo::Text("Location, Link, Accept-Patch, ETag"@),
                ),
            )
        }),
{
    let response = whip::offer_response(endpoint_id, status, location, headers, body);
    let first = whip::location_header(endpoint_id, location);
    let keep = |h: (Seq<char>, ContentInfo)| whip::is_passed_on(text::lowercase(h.0));
    let passed = whip::passed_on(headers);
    let cors = whip::cors();
    let all = response.headers;
    assert(all == first + passed + cors);
    if let HeaderInfo::Value(s) = location {
        assert(all[0] == first[0]);
    }
    assert(all[(first.len() + passed.len()) as int] == cors[0]);
    assert(all[(first.len() + passed.len() + 3) as int] == cors[3]);
    if 0 <= k < headers.len() && is_for_clients(text::lowercase(headers[k].0)) {
        lemma_kept(headers, keep, k);
        let m = choose|m: int| 0 <= m < passed.len() && passed[m] == headers[k];
        assert(all[first.len() + m] == headers[k]);
    }
    if 0 <= k < all.len() {
        if k < first.len() {
            assert(all[k] == first[k]);
        } else if k < first.len() + passed.len() {
            assert(all[k] == passed[k - first.len()]);
            sequences::lemma_filter_element(headers, keep, k - first.len());
        } else {
            assert(all[k] == cors[k - first.len() - passed.len()]);
        }
    }
}

/// One of the headers that let browsers on other sites use the proxy.
pub open spec fn is_for_other_sites(header: (Seq<char>, ContentInfo)) -> bool {
    ||| header == ("Access-Control-Allow-Origin"@, ContentInfo::Text("*"@))
    ||| header == (
        "Access-Control-Allow-Methods"@,
        ContentInfo::Text("POST, PATCH, DELETE, OPTIONS"@),
    )
    ||| header == (
        "Access-Control-Allow-Headers"@,
        ContentInfo::Text("Content-Type, Authorization, If-Match"@),
    )
    ||| header == (
        "Access-Control-Expose-Headers"@,
        ContentInfo::Text("Location, Link, Accept-Patch, ETag"@),
    )
}

proof fn lemma_kept<A>(s: Seq<A>, keep: spec_fn(A) -> bool, k: int)
    requires
        0 <= k < s.len(),
        keep(s[k]),
    ensures
        s.filter(keep).contains(s[k]),
    decreases s.len(),
{
    reveal(Seq::filter);
    let init = s.drop_last();
    let kept = s.filter(keep);
    if k < s.len() - 1 {
        lemma_kept(init, keep, k);
        let m = choose|m: int| 0 <= m < init.filter(keep).len() && init.filter(keep)[m] == s[k];
        assert(kept[m] == s[k]);
    } else {
        assert(kept[kept.len() - 1] == s[k]);
    }
}

/// A response to a request for a session has its status and its body, and lets
/// browsers on other sites read it. A browser that asks what it may do is told
/// so without a body.
pub proof fn sessions_answer_for_themselves(status: u16, body: ContentInfo)
    ensures
        whip::session_response(status, Some(body)).status == status,
        whip::session_response(status, Some(body)).body == body,
        whip::session_response(status, None).status == status,
        whip::session_response(status, None).body == ContentInfo::Binary(Seq::empty()),
        whip::session_response(status, Some(body)).headers.contains(
            ("Access-Control-Allow-Origin"@, ContentInfo::Text("*"@)),
        ),
        whip::preflight_response().status == 204,
        whip::preflight_response().headers.contains(
            ("Access-Control-Allow-Origin"@, ContentInfo::Text("*"@)),
        ),
        whip::preflight_response().headers.contains(
            (
                "Access-Control-Allow-Methods"@,
                ContentInfo::Text("POST, PATCH, DELETE, OPTIONS"@),
            ),
        ),
        whip::preflight_response().headers.contains(
            (
                "Access-Control-Allow-Headers"@,
                ContentInfo::Text("Content-Type, Authorization, If-Match"@),
            ),
        ),
        whip::preflight_response().body == ContentInfo::Binary(Seq::empty()),
{
    let h = whip::session_response(status, Some(body)).headers;
    assert(h[0] == ("Access-Control-Allow-Origin"@, ContentInfo::Text("*"@)));
    let p = whip::preflight_response().headers;
    assert(p[0] == ("Access-Control-Allow-Origin"@, ContentInfo::Text("*"@)));
    assert(p[1].0 == "Access-Control-Allow-Methods"@ && p.contains(p[1]));
    assert(p[2].0 == "Access-Control-Allow-Headers"@ && p.contains(p[2]));
}

/// An address that is not under the proxy's own path is handed on as it is.
pub proof fn foreign_location_is_kept(endpoint_id: Seq<char>, location: Seq<char>, rest: Seq<char>)
    ensures
        (forall|tail: Seq<char>| location != #[trigger] ("/whip/"@ + tail))
            ==> whip::public_location(endpoint_id, location) == location,
        whip::public_location(endpoint_id, "/whip/"@ + rest) == "/whip/"@ + endpoint_id + "/"@
            + rest,
{
    let p = "/whip/"@;
    if text::has_prefix(location, p) {
        assert(location =~= p + location.skip(p.len() as int));
    }
    assert((p + rest).subrange(0, p.len() as int) =~= p);
    assert((p + rest).skip(p.len() as int) =~= rest);
}

/// What goes wrong between the proxy and an endpoint is a bad gateway, what is
/// wrong with the request is the client's fault, and the rest the server's.
pub proof fn failures_are_told_apart(reason: String)
    ensures
        whip::failure_info(ProxyFailure::NoClient) == (500u16, "Internal error"@),
        whip::failure_info(ProxyFailure::NoBody) == (400u16, "Failed to read body"@),
        whip::failure_info(ProxyFailure::NotSent(reason)).0 == 502,
        whip::failure_info(ProxyFailure::NotSent(reason)).1 == "Proxy error: "@ + reason@,
        whip::failure_info(ProxyFailure::NoAnswer) == (502u16, "Failed to read response"@),
        whip::failure_info(ProxyFailure::NoResponse) == (500u16, "Response build error"@),
        whip::failure_info(ProxyFailure::NoTrickleResponse) == (500u16, "Response error"@),
{
}

/// An endpoint is listed under its own id and with its own mode, so that two
/// entries are the same only where the endpoints are.
pub proof fn endpoints_are_listed_as_they_are(
    id: Seq<char>,
    mode: Seq<char>,
    other_id: Seq<char>,
    other_mode: Seq<char>,
)
    ensures
        whip::endpoint_entry(id, mode) matches JsonTree::Object(members) && {
            &&& members.len() == 2
            &&& members.contains(("endpoint_id"@, JsonTree::Text(id)))
            &&& members.contains(("mode"@, JsonTree::Text(mode)))
        },
        whip::endpoint_entry(id, mode) == whip::endpoint_entry(other_id, other_mode) ==> id
            == other_id && mode == other_mode,
{
    let a = whip::endpoint_entry(id, mode)->Object_0;
    let b = whip::endpoint_entry(other_id, other_mode)->Object_0;
    assert(a[0] == ("endpoint_id"@, JsonTree::Text(id)));
    assert(a[1] == ("mode"@, JsonTree::Text(mode)));
    assert(b[0] == ("endpoint_id"@, JsonTree::Text(other_id)));
    assert(b[1] == ("mode"@, JsonTree::Text(other_mode)));
}

} // verus!
