//! The WHIP ingest proxy: where requests go, and what of the replies comes
//! back.

use crate::http::{reply, HeaderField, HeaderInfo, Reply, ReplyInfo};
use crate::json::{Json, JsonTree};
use crate::sdp;
use crate::sequences;
use crate::text;
use vstd::prelude::*;

verus! {

pub const ENDPOINT_NOT_FOUND: &'static str = "WHIP endpoint not found";

/// The content type of an offer that states none.
pub const DEFAULT_OFFER_TYPE: &'static str = "application/sdp";

/// The content type of trickled candidates that state none.
pub const DEFAULT_TRICKLE_TYPE: &'static str = "application/trickle-ice-sdpfrag";

/// What an unknown endpoint is answered with.
pub fn endpoint_not_found() -> (r: Reply)
    ensures
        r@ == (404u16, ENDPOINT_NOT_FOUND@),
{
    reply(404, ENDPOINT_NOT_FOUND)
}

/// Where offers for an endpoint go.
pub open spec fn offer_url(port: u16) -> Seq<char> {
    "http://127.0.0.1:"@ + text::decimal(port as nat) + "/whip/endpoint"@
}

/// Where requests for a session go.
pub open spec fn session_url(port: u16, resource: Seq<char>) -> Seq<char> {
    "http://127.0.0.1:"@ + text::decimal(port as nat) + "/whip/resource/"@ + resource
}

/// Where an offer is sent on to.
pub fn endpoint_url(port: u16) -> (r: String)
    ensures
        r@ == offer_url(port),
{
    let number = text::u64_text(port as u64);
    "http://127.0.0.1:".to_owned().concat(number.as_str()).concat("/whip/endpoint")
}

/// Where a request for a session is sent on to.
pub fn resource_url(port: u16, resource_id: &str) -> (r: String)
    ensures
        r@ == session_url(port, resource_id@),
{
    let number = text::u64_text(port as u64);
    "http://127.0.0.1:".to_owned().concat(number.as_str()).concat("/whip/resource/").concat(
        resource_id,
    )
}

/// A session's address as clients reach it: under the endpoint's own path.
pub open spec fn public_location(endpoint_id: Seq<char>, location: Seq<char>) -> Seq<char> {
    if text::has_prefix(location, "/whip/"@) {
        "/whip/"@ + endpoint_id + "/"@ + location.skip("/whip/"@.len() as int)
    } else {
        location
    }
}

/// Rewrites a session's address for clients.
pub fn rewrite_location(endpoint_id: &str, location: &str) -> (r: String)
    ensures
        r@ == public_location(endpoint_id@, location@),
{
    match text::strip_prefix(location, "/whip/") {
        Some(rest) => "/whip/".to_owned().concat(endpoint_id).concat("/").concat(rest.as_str()),
        None => location.to_owned(),
    }
}

/// The headers of a reply that are passed on, by their names in lower case.
pub open spec fn is_passed_on(name: Seq<char>) -> bool {
    ||| name == "content-type"@
    ||| name == "link"@
    ||| name == "accept-patch"@
    ||| name == "etag"@
}

/// Whether a header of a reply is passed on.
pub fn forwards_header(name: &str) -> (r: bool)
    ensures
        r == is_passed_on(text::lowercase(name@)),
{
    let lower = text::to_lowercase(name);
    forwards_lowercase_header(lower.as_str())
}

/// Whether a header of a reply is passed on, by its name in lower case.
pub fn forwards_lowercase_header(name: &str) -> (r: bool)
    ensures
        r == is_passed_on(name@),
{
    text::same(name, "content-type") || text::same(name, "link") || text::same(
        name,
        "accept-patch",
    ) || text::same(name, "etag")
}

/// An offer as it is sent on: redundancy codecs are taken out of it where its
/// content type says that it is a session description.
pub fn prepare_offer(content_type: &str, body: &str) -> (r: String)
    ensures
        r@ == if text::contains_text(content_type@, "sdp"@) {
            sdp::stripped_offer(body@)
        } else {
            body@
        },
{
    if text::contains(content_type, "sdp") {
        sdp::strip_redundancy_codecs(body)
    } else {
        body.to_owned()
    }
}

/// An answer as it comes back: with `goog-remb` feedback and with the bitrate
/// hints where browsers read them.
pub fn patch_answer(body: &str) -> (r: String)
    ensures
        r@ == sdp::with_hints(sdp::with_remb(body@)),
{
    let with_remb = sdp::add_goog_remb(body);
    sdp::fix_video_bitrate_hints(with_remb.as_str())
}

/// The headers that let browsers on other sites use the proxy.
pub open spec fn cors_header_texts() -> Seq<(Seq<char>, Seq<char>)> {
    seq![
        ("Access-Control-Allow-Origin"@, "*"@),
        ("Access-Control-Allow-Methods"@, "POST, PATCH, DELETE, OPTIONS"@),
        ("Access-Control-Allow-Headers"@, "Content-Type, Authorization, If-Match"@),
        ("Access-Control-Expose-Headers"@, "Location, Link, Accept-Patch, ETag"@),
    ]
}

/// The headers that let browsers on other sites use the proxy.
pub fn cors_headers() -> (r: Vec<(String, String)>)
    ensures
        r@.map_values(|h: (String, String)| (h.0@, h.1@)) == cors_header_texts(),
{
    let mut out: Vec<(String, String)> = Vec::new();
    out.push(("Access-Control-Allow-Origin".to_owned(), "*".to_owned()));
    out.push(
        ("Access-Control-Allow-Methods".to_owned(), "POST, PATCH, DELETE, OPTIONS".to_owned()),
    );
    out.push(
        (
            "Access-Control-Allow-Headers".to_owned(),
            "Content-Type, Authorization, If-Match".to_owned(),
        ),
    );
    out.push(
        ("Access-Control-Expose-Headers".to_owned(), "Location, Link, Accept-Patch, ETag".to_owned()),
    );
    assert(out@.map_values(|h: (String, String)| (h.0@, h.1@)) =~= cors_header_texts());
    out
}

// ---------------------------------------------------------------------------
// Requests and responses
// ---------------------------------------------------------------------------

/// The content of a body or a header: text, or bytes that are none.
pub enum Content {
    Text(String),
    Binary(Vec<u8>),
}

pub enum ContentInfo {
    Text(Seq<char>),
    Binary(Seq<u8>),
}

impl View for Content {
    type V = ContentInfo;

    open spec fn view(&self) -> ContentInfo {
        match self {
            Content::Text(s) => ContentInfo::Text(s@),
            Content::Binary(v) => ContentInfo::Binary(v@),
        }
    }
}

fn copy_bytes(bytes: &Vec<u8>) -> (r: Vec<u8>)
    ensures
        r@ == bytes@,
{
    let mut out: Vec<u8> = Vec::new();
    let mut i: usize = 0;
    while i < bytes.len()
        invariant
            i <= bytes.len(),
            out@ == bytes@.take(i as int),
        decreases bytes.len() - i,
    {
        out.push(bytes[i]);
        proof {
            assert(bytes@.take(i + 1) =~= bytes@.take(i as int).push(bytes@[i as int]));
        }
        i += 1;
    }
    proof {
        assert(bytes@.take(i as int) =~= bytes@);
    }
    out
}

impl Content {
    fn duplicate(&self) -> (r: Content)
        ensures
            r@ == self@,
    {
        match self {
            Content::Text(s) => Content::Text(s.clone()),
            Content::Binary(v) => Content::Binary(copy_bytes(v)),
        }
    }
}

/// Headers: names and what they hold.
pub type Headers = Seq<(Seq<char>, ContentInfo)>;

pub open spec fn headers_of(v: Seq<(String, Content)>) -> Headers {
    v.map_values(|h: (String, Content)| (h.0@, h.1@))
}

/// A request to send on.
pub struct ProxyRequest {
    pub url: String,
    pub content_type: String,
    /// The credentials of the client, as they came.
    pub authorization: Option<Content>,
    pub body: Content,
}

pub struct RequestInfo {
    pub url: Seq<char>,
    pub content_type: Seq<char>,
    pub authorization: Option<ContentInfo>,
    pub body: ContentInfo,
}

impl View for ProxyRequest {
    type V = RequestInfo;

    open spec fn view(&self) -> RequestInfo {
        RequestInfo {
            url: self.url@,
            content_type: self.content_type@,
            authorization: content_seen(self.authorization),
            body: self.body@,
        }
    }
}

pub open spec fn content_seen(c: Option<Content>) -> Option<ContentInfo> {
    match c {
        Some(c) => Some(c@),
        None => None,
    }
}

/// A response to the client.
pub struct ProxyResponse {
    pub status: u16,
    pub headers: Vec<(String, Content)>,
    pub body: Content,
}

pub struct ResponseInfo {
    pub status: u16,
    pub headers: Headers,
    pub body: ContentInfo,
}

impl View for ProxyResponse {
    type V = ResponseInfo;

    open spec fn view(&self) -> ResponseInfo {
        ResponseInfo {
            status: self.status,
            headers: headers_of(self.headers@),
            body: self.body@,
        }
    }
}

pub open spec fn request_seen(r: Result<ProxyRequest, Reply>) -> Result<RequestInfo, ReplyInfo> {
    match r {
        Ok(request) => Ok(request@),
        Err(reply) => Err(reply@),
    }
}

/// The content type that a request states, or `fallback`.
pub open spec fn stated_type(header: HeaderInfo, fallback: Seq<char>) -> Seq<char> {
    match header {
        HeaderInfo::Value(s) => s,
        _ => fallback,
    }
}

fn content_type_or(header: &HeaderField, fallback: &str) -> (r: String)
    ensures
        r@ == stated_type(header@, fallback@),
{
    match header {
        HeaderField::Value(s) => s.clone(),
        _ => fallback.to_owned(),
    }
}

/// What goes wrong on the way to an endpoint and back.
pub enum ProxyFailure {
    /// No client for the way on.
    NoClient,
    /// The request's body cannot be read.
    NoBody,
    /// The request cannot be sent on, and why.
    NotSent(String),
    /// The body of the answer to an offer cannot be read.
    NoAnswer,
    /// The response to an offer cannot be put together.
    NoResponse,
    /// The response to trickled candidates cannot be put together.
    NoTrickleResponse,
}

pub open spec fn failure_info(failure: ProxyFailure) -> ReplyInfo {
    match failure {
        ProxyFailure::NoClient => (500, "Internal error"@),
        ProxyFailure::NoBody => (400, "Failed to read body"@),
        ProxyFailure::NotSent(reason) => (502, "Proxy error: "@ + reason@),
        ProxyFailure::NoAnswer => (502, "Failed to read response"@),
        ProxyFailure::NoResponse => (500, "Response build error"@),
        ProxyFailure::NoTrickleResponse => (500, "Response error"@),
    }
}

/// What a failure is answered with.
pub fn failure_reply(failure: &ProxyFailure) -> (r: Reply)
    ensures
        r@ == failure_info(*failure),
{
    match failure {
        ProxyFailure::NoClient => reply(500, "Internal error"),
        ProxyFailure::NoBody => reply(400, "Failed to read body"),
        ProxyFailure::NotSent(reason) => Reply {
            status: 502,
            body: "Proxy error: ".to_owned().concat(reason.as_str()),
        },
        ProxyFailure::NoAnswer => reply(502, "Failed to read response"),
        ProxyFailure::NoResponse => reply(500, "Response build error"),
        ProxyFailure::NoTrickleResponse => reply(500, "Response error"),
    }
}

// ---------------------------------------------------------------------------
// Offers
// ---------------------------------------------------------------------------

/// An offer's body as it is sent on: only text can be a session description.
pub open spec fn offer_sent(content_type: Seq<char>, body: ContentInfo) -> ContentInfo {
    match body {
        ContentInfo::Text(s) => if text::contains_text(content_type, "sdp"@) {
            ContentInfo::Text(sdp::stripped_offer(s))
        } else {
            body
        },
        ContentInfo::Binary(_) => body,
    }
}

/// The request that an offer is sent on as. `port` is where the endpoint listens,
/// if there is such an endpoint.
pub open spec fn offer_request(
    port: Option<u16>,
    content_type: HeaderInfo,
    authorization: Option<ContentInfo>,
    body: ContentInfo,
) -> Result<RequestInfo, ReplyInfo> {
    match port {
        None => Err((404u16, ENDPOINT_NOT_FOUND@)),
        Some(port) => Ok(
            RequestInfo {
                url: offer_url(port),
                content_type: stated_type(content_type, DEFAULT_OFFER_TYPE@),
                authorization,
                body: offer_sent(stated_type(content_type, DEFAULT_OFFER_TYPE@), body),
            },
        ),
    }
}

/// The request that an offer is sent on as.
pub fn whip_post(
    port: Option<u16>,
    content_type: &HeaderField,
    authorization: Option<Content>,
    body: Content,
) -> (r: Result<ProxyRequest, Reply>)
    ensures
        request_seen(r) == offer_request(
            port,
            content_type@,
            content_seen(authorization),
            body@,
        ),
{
    match port {
        None => Err(endpoint_not_found()),
        Some(port) => {
            let content_type = content_type_or(content_type, DEFAULT_OFFER_TYPE);
            let body = match body {
                Content::Text(s) => Content::Text(
                    prepare_offer(content_type.as_str(), s.as_str()),
                ),
                Content::Binary(v) => Content::Binary(v),
            };
            Ok(ProxyRequest { url: endpoint_url(port), content_type, authorization, body })
        },
    }
}

/// An answer's body as it comes back.
pub open spec fn answer_returned(body: ContentInfo) -> ContentInfo {
    match body {
        ContentInfo::Text(s) => ContentInfo::Text(sdp::with_hints(sdp::with_remb(s))),
        ContentInfo::Binary(_) => body,
    }
}

/// The headers that let browsers on other sites use the proxy.
pub open spec fn cors() -> Headers {
    cors_header_texts().map_values(
        |h: (Seq<char>, Seq<char>)| (h.0, ContentInfo::Text(h.1)),
    )
}

/// The header that says where the session is.
pub open spec fn location_header(endpoint_id: Seq<char>, location: HeaderInfo) -> Headers {
    match location {
        HeaderInfo::Value(s) => seq![
            ("Location"@, ContentInfo::Text(public_location(endpoint_id, s))),
        ],
        _ => Seq::empty(),
    }
}

/// The headers of an answer that are passed on.
pub open spec fn passed_on(headers: Headers) -> Headers {
    headers.filter(|h: (Seq<char>, ContentInfo)| is_passed_on(text::lowercase(h.0)))
}

/// The response to an offer.
pub open spec fn offer_response(
    endpoint_id: Seq<char>,
    status: u16,
    location: HeaderInfo,
    headers: Headers,
    body: ContentInfo,
) -> ResponseInfo {
    ResponseInfo {
        status,
        headers: location_header(endpoint_id, location) + passed_on(headers) + cors(),
        body: answer_returned(body),
    }
}

fn push_header(headers: &mut Vec<(String, Content)>, name: String, value: Content)
    ensures
        headers_of(final(headers)@) == headers_of(old(headers)@).push((name@, value@)),
{
    let ghost before = headers_of(headers@);
    let ghost added = (name@, value@);
    headers.push((name, value));
    assert(headers_of(headers@) =~= before.push(added));
}

fn push_passed_on(out: &mut Vec<(String, Content)>, headers: &Vec<(String, Content)>)
    ensures
        headers_of(final(out)@) == headers_of(old(out)@) + passed_on(headers_of(headers@)),
{
    let ghost base = headers_of(out@);
    let ghost all = headers_of(headers@);
    let ghost keep = |h: (Seq<char>, ContentInfo)| is_passed_on(text::lowercase(h.0));
    let mut i: usize = 0;
    proof {
        reveal(Seq::filter);
        assert(base + all.take(0).filter(keep) =~= base);
    }
    while i < headers.len()
        invariant
            i <= headers.len(),
            all == headers_of(headers@),
            keep == (|h: (Seq<char>, ContentInfo)| is_passed_on(text::lowercase(h.0))),
            headers_of(out@) == base + all.take(i as int).filter(keep),
        decreases headers.len() - i,
    {
        proof {
            sequences::lemma_filter_take(all, keep, i as int);
            assert(all[i as int] == (headers@[i as int].0@, headers@[i as int].1@));
        }
        let ghost kept = all.take(i as int).filter(keep);
        if forwards_header(headers[i].0.as_str()) {
            push_header(out, headers[i].0.clone(), headers[i].1.duplicate());
            assert((base + kept).push(all[i as int]) =~= base + kept.push(all[i as int]));
        }
        i += 1;
    }
    proof {
        assert(all.take(i as int) =~= all);
    }
}

fn push_cors(out: &mut Vec<(String, Content)>)
    ensures
        headers_of(final(out)@) == headers_of(old(out)@) + cors(),
{
    let ghost base = headers_of(out@);
    let fixed = cors_headers();
    let ghost texts = fixed@.map_values(|h: (String, String)| (h.0@, h.1@));
    let mut i: usize = 0;
    proof {
        assert(base + cors().take(0) =~= base);
    }
    while i < fixed.len()
        invariant
            i <= fixed.len(),
            texts == fixed@.map_values(|h: (String, String)| (h.0@, h.1@)),
            texts == cors_header_texts(),
            cors().len() == fixed.len(),
            headers_of(out@) == base + cors().take(i as int),
        decreases fixed.len() - i,
    {
        proof {
            assert(texts[i as int] == (fixed@[i as int].0@, fixed@[i as int].1@));
            assert(cors()[i as int] == (
                fixed@[i as int].0@,
                ContentInfo::Text(fixed@[i as int].1@),
            ));
            assert((base + cors().take(i as int)).push(cors()[i as int]) =~= base + cors().take(
                i + 1,
            ));
        }
        push_header(out, fixed[i].0.clone(), Content::Text(fixed[i].1.clone()));
        i += 1;
    }
    proof {
        assert(cors().take(i as int) =~= cors());
    }
}

/// The response to an offer, out of what the endpoint answered.
pub fn whip_answer(
    endpoint_id: &str,
    status: u16,
    location: &HeaderField,
    headers: &Vec<(String, Content)>,
    body: Content,
) -> (r: ProxyResponse)
    ensures
        r@ == offer_response(
            endpoint_id@,
            status,
            location@,
            headers_of(headers@),
            body@,
        ),
{
    let body = match body {
        Content::Text(s) => Content::Text(patch_answer(s.as_str())),
        Content::Binary(v) => Content::Binary(v),
    };
    let mut out: Vec<(String, Content)> = Vec::new();
    proof {
        assert(headers_of(out@) =~= Seq::<(Seq<char>, ContentInfo)>::empty());
    }
    if let HeaderField::Value(s) = location {
        push_header(
            &mut out,
            "Location".to_owned(),
            Content::Text(rewrite_location(endpoint_id, s.as_str())),
        );
    }
    proof {
        assert(headers_of(out@) =~= location_header(endpoint_id@, location@));
    }
    push_passed_on(&mut out, headers);
    push_cors(&mut out);
    ProxyResponse { status, headers: out, body }
}

// ---------------------------------------------------------------------------
// Sessions
// ---------------------------------------------------------------------------

/// The request that trickled candidates are sent on as.
pub open spec fn trickle_request(
    port: Option<u16>,
    resource: Seq<char>,
    content_type: HeaderInfo,
    body: ContentInfo,
) -> Result<RequestInfo, ReplyInfo> {
    match port {
        None => Err((404u16, ENDPOINT_NOT_FOUND@)),
        Some(port) => Ok(
            RequestInfo {
                url: session_url(port, resource),
                content_type: stated_type(content_type, DEFAULT_TRICKLE_TYPE@),
                authorization: None,
                body,
            },
        ),
    }
}

/// The request that trickled candidates are sent on as.
pub fn whip_resource_patch(
    port: Option<u16>,
    resource_id: &str,
    content_type: &HeaderField,
    body: Content,
) -> (r: Result<ProxyRequest, Reply>)
    ensures
        request_seen(r) == trickle_request(port, resource_id@, content_type@, body@),
{
    match port {
        None => Err(endpoint_not_found()),
        Some(port) => Ok(
            ProxyRequest {
                url: resource_url(port, resource_id),
                content_type: content_type_or(content_type, DEFAULT_TRICKLE_TYPE),
                authorization: None,
                body,
            },
        ),
    }
}

/// Where a client's farewell is sent on to.
pub fn whip_resource_delete(port: Option<u16>, resource_id: &str) -> (r: Result<String, Reply>)
    ensures
        match r {
            Ok(url) => port is Some && url@ == session_url(port->0, resource_id@),
            Err(reply) => port is None && reply@ == (404u16, ENDPOINT_NOT_FOUND@),
        },
{
    match port {
        None => Err(endpoint_not_found()),
        Some(port) => Ok(resource_url(port, resource_id)),
    }
}

/// The response to a request for a session: its status and body, with no body
/// where that cannot be read.
pub open spec fn session_response(status: u16, body: Option<ContentInfo>) -> ResponseInfo {
    ResponseInfo {
        status,
        headers: seq![("Access-Control-Allow-Origin"@, ContentInfo::Text("*"@))],
        body: match body {
            Some(body) => body,
            None => ContentInfo::Binary(Seq::empty()),
        },
    }
}

/// The response to a request for a session.
pub fn resource_answer(status: u16, body: Option<Content>) -> (r: ProxyResponse)
    ensures
        r@ == session_response(status, content_seen(body)),
{
    let mut headers: Vec<(String, Content)> = Vec::new();
    proof {
        assert(headers_of(headers@) =~= Seq::<(Seq<char>, ContentInfo)>::empty());
    }
    push_header(
        &mut headers,
        "Access-Control-Allow-Origin".to_owned(),
        Content::Text("*".to_owned()),
    );
    let body = match body {
        Some(body) => body,
        None => Content::Binary(Vec::new()),
    };
    let r = ProxyResponse { status, headers, body };
    proof {
        assert(r@.headers =~= session_response(status, None).headers);
    }
    r
}

/// The response to a browser that asks what it may do.
pub open spec fn preflight_response() -> ResponseInfo {
    ResponseInfo { status: 204, headers: cors(), body: ContentInfo::Binary(Seq::empty()) }
}

/// The response to a browser that asks what it may do with an endpoint.
pub fn whip_options() -> (r: ProxyResponse)
    ensures
        r@ == preflight_response(),
{
    let mut headers: Vec<(String, Content)> = Vec::new();
    proof {
        assert(headers_of(headers@) =~= Seq::<(Seq<char>, ContentInfo)>::empty());
    }
    push_cors(&mut headers);
    proof {
        assert(headers_of(headers@) =~= cors());
    }
    ProxyResponse { status: 204, headers, body: Content::Binary(Vec::new()) }
}

/// The response to a browser that asks what it may do with a session.
pub fn whip_resource_options() -> (r: ProxyResponse)
    ensures
        r@ == preflight_response(),
{
    whip_options()
}

// ---------------------------------------------------------------------------
// Listing
// ---------------------------------------------------------------------------

/// How an endpoint is listed.
pub open spec fn endpoint_entry(id: Seq<char>, mode: Seq<char>) -> JsonTree {
    JsonTree::Object(
        seq![("endpoint_id"@, JsonTree::Text(id)), ("mode"@, JsonTree::Text(mode))],
    )
}

/// The list of the endpoints that are active.
pub fn list_whip_endpoints(endpoints: &Vec<(String, String)>) -> (r: Json)
    ensures
        r@ == JsonTree::Array(
            Seq::new(
                endpoints@.len(),
                |i: int| endpoint_entry(endpoints@[i].0@, endpoints@[i].1@),
            ),
        ),
{
    let mut items: Vec<Json> = Vec::new();
    let mut i: usize = 0;
    while i < endpoints.len()
        invariant
            i <= endpoints.len(),
            items.len() == i,
            forall|k: int|
                0 <= k < i ==> (#[trigger] items@[k])@ == endpoint_entry(
                    endpoints@[k].0@,
                    endpoints@[k].1@,
                ),
        decreases endpoints.len() - i,
    {
        let mut members: Vec<(String, Json)> = Vec::new();
        members.push(("endpoint_id".to_owned(), Json::Text(endpoints[i].0.clone())));
        members.push(("mode".to_owned(), Json::Text(endpoints[i].1.clone())));
        let item = Json::Object(members);
        proof {
            reveal_with_fuel(Json::tree, 3);
            assert(item@->Object_0 =~= endpoint_entry(
                endpoints@[i as int].0@,
                endpoints@[i as int].1@,
            )->Object_0);
        }
        items.push(item);
        i += 1;
    }
    let r = Json::Array(items);
    proof {
        assert(r@->Array_0 =~= Seq::new(
            endpoints@.len(),
            |i: int| endpoint_entry(endpoints@[i].0@, endpoints@[i].1@),
        ));
    }
    r
}

// ---------------------------------------------------------------------------
// Laws
// ---------------------------------------------------------------------------

/// A request for an endpoint that is not there goes nowhere: it is answered with
/// not found, whatever it holds.
pub proof fn unknown_endpoint_is_not_found(
    content_type: HeaderInfo,
    authorization: Option<ContentInfo>,
    body: ContentInfo,
    resource: Seq<char>,
)
    ensures
        offer_request(None, content_type, authorization, body) == Err::<RequestInfo, ReplyInfo>(
            (404u16, ENDPOINT_NOT_FOUND@),
        ),
        trickle_request(None, resource, content_type, body) == Err::<RequestInfo, ReplyInfo>(
            (404u16, ENDPOINT_NOT_FOUND@),
        ),
{
}

/// A session's address that a client is given leads back to the session: what
/// follows the endpoint in it is what the endpoint itself gave out.
pub proof fn public_location_leads_back(endpoint_id: Seq<char>, resource: Seq<char>)
    ensures
        public_location(endpoint_id, "/whip/resource/"@ + resource) == "/whip/"@ + endpoint_id
            + "/resource/"@ + resource,
{
    reveal_strlit("/whip/");
    reveal_strlit("/resource/");
    reveal_strlit("/whip/resource/");
    reveal_strlit("/");
    let location = "/whip/resource/"@ + resource;
    assert(location.subrange(0, 6) =~= "/whip/"@);
    assert("/"@ + location.skip(6) =~= "/resource/"@ + resource);
    assert("/whip/"@ + endpoint_id + "/"@ + location.skip(6) =~= "/whip/"@ + endpoint_id + (
    "/"@ + location.skip(6)));
    assert("/whip/"@ + endpoint_id + "/resource/"@ + resource =~= "/whip/"@ + endpoint_id + (
    "/resource/"@ + resource));
}

} // verus!
