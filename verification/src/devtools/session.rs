//! What may travel over a remote control link, and what each request under a
//! link's key is answered with.

use crate::devtools::access;
use crate::devtools::links;
use crate::devtools::links::{DevToolsConfig, DevToolsState, LinkInfo, LINK_TTL};
use crate::devtools::targets;
use crate::flow::Flow;
use crate::http::{reply, HeaderField, HeaderInfo, Reply, ReplyInfo};
use crate::json::{self, Json, JsonTree};
use crate::text;
use vstd::prelude::*;

verus! {

// ---------------------------------------------------------------------------
// The filter
// ---------------------------------------------------------------------------

/// What a remote control session may ask Chromium to do.
pub const SCREENCAST_METHODS: [&'static str; 7] = [
    "Input.dispatchKeyEvent",
    "Input.dispatchMouseEvent",
    "Input.insertText",
    "Page.enable",
    "Page.screencastFrameAck",
    "Page.startScreencast",
    "Page.stopScreencast",
];

pub open spec fn is_screencast_method(method: Seq<char>) -> bool {
    exists|i: int| 0 <= i < 7 && (#[trigger] SCREENCAST_METHODS@[i])@ == method
}

fn known_method(method: &str) -> (r: bool)
    ensures
        r == is_screencast_method(method@),
{
    let methods = SCREENCAST_METHODS;
    let mut i: usize = 0;
    while i < 7
        invariant
            i <= 7,
            methods@ == SCREENCAST_METHODS@,
            forall|j: int| 0 <= j < i ==> (#[trigger] SCREENCAST_METHODS@[j])@ != method@,
        decreases 7 - i,
    {
        if text::same(methods[i], method) {
            assert(SCREENCAST_METHODS@[i as int]@ == method@);
            return true;
        }
        i += 1;
    }
    false
}

/// The protocol's code for a method that is not there.
pub const METHOD_NOT_FOUND: i64 = -32601;

pub const NOT_A_MESSAGE: &'static str = "Not a DevTools protocol message";

pub const NOT_A_COMMAND: &'static str = "A remote control session sends commands, nothing else";

pub const NOT_CARRIED: &'static str =
    " is not available over a remote control link, which carries the page's picture, clicks and keystrokes only";

/// Why a message is not forwarded: the command it answers, and the reason.
pub type Refusal = (Option<i64>, Seq<char>);

/// Why a message is not forwarded, or `None` when it is.
pub open spec fn refusal_of(message: Option<JsonTree>) -> Option<Refusal> {
    match message {
        None => Some((None, NOT_A_MESSAGE@)),
        Some(tree) => {
            let id = json::int_value(json::member(tree, "id"@));
            match targets::member_text(tree, "method"@) {
                None => Some((id, NOT_A_COMMAND@)),
                Some(method) => if is_screencast_method(method) {
                    None
                } else {
                    Some((id, method + NOT_CARRIED@))
                },
            }
        },
    }
}

pub open spec fn int_tree(n: i64) -> JsonTree {
    if n < 0 {
        JsonTree::NegInt(n)
    } else {
        JsonTree::PosInt(n as u64)
    }
}

/// The protocol's own shape for "no", against the command that was sent.
pub open spec fn refusal_tree(refusal: Refusal) -> JsonTree {
    JsonTree::Object(
        seq![
            (
                "error"@,
                JsonTree::Object(
                    seq![
                        ("code"@, JsonTree::NegInt(METHOD_NOT_FOUND)),
                        ("message"@, JsonTree::Text(refusal.1)),
                    ],
                ),
            ),
            (
                "id"@,
                match refusal.0 {
                    Some(n) => int_tree(n),
                    None => JsonTree::Null,
                },
            ),
        ],
    )
}

proof fn lemma_refusal_is_plain(refusal: Refusal)
    ensures
        json::is_plain(refusal_tree(refusal), json::PLAIN_DEPTH as nat),
{
    reveal_with_fuel(json::is_plain, 4);
    reveal_strlit("error");
    reveal_strlit("id");
    reveal_strlit("code");
    reveal_strlit("message");
    let tree = refusal_tree(refusal);
    let members = tree->Object_0;
    let error = members[0].1->Object_0;
    assert(!text::no_later(members[1].0, members[0].0));
    assert(!text::no_later(error[1].0, error[0].0));
    assert(json::is_plain(error[0].1, 98));
    assert(json::is_plain(error[1].1, 98));
    assert(json::is_plain(members[0].1, 99));
    assert(json::is_plain(members[1].1, 99));
}

/// The refusal to send back in place of a command.
pub fn cdp_refusal(id: Option<i64>, message: &str) -> (r: String)
    ensures
        r@ == json::json_text(refusal_tree((id, message@))),
        json::json_document(r@) == Some(refusal_tree((id, message@))),
{
    let number = match id {
        Some(n) => if n < 0 {
            Json::NegInt(n)
        } else {
            Json::PosInt(n as u64)
        },
        None => Json::Null,
    };
    let ghost number_tree = number@;
    let mut error: Vec<(String, Json)> = Vec::new();
    error.push(("code".to_owned(), Json::NegInt(METHOD_NOT_FOUND)));
    error.push(("message".to_owned(), Json::Text(message.to_owned())));
    let ghost error_tree = Json::Object(error)@;
    proof {
        reveal_with_fuel(Json::tree, 3);
        assert(error_tree->Object_0 =~= seq![
            ("code"@, JsonTree::NegInt(METHOD_NOT_FOUND)),
            ("message"@, JsonTree::Text(message@)),
        ]);
    }
    let mut members: Vec<(String, Json)> = Vec::new();
    members.push(("error".to_owned(), Json::Object(error)));
    members.push(("id".to_owned(), number));
    let refusal = Json::Object(members);
    proof {
        assert(refusal@->Object_0 =~= refusal_tree((id, message@))->Object_0);
        lemma_refusal_is_plain((id, message@));
    }
    json::render(refusal)
}

/// A message from the client that is not forwarded.
pub struct RefusedMessage {
    pub id: Option<i64>,
    pub message: String,
}

/// Why a message from the client is not forwarded, or `None` when it is. A
/// text that is no JSON is no message.
pub fn judge(message: &Option<Json>) -> (r: Option<RefusedMessage>)
    ensures
        (match r {
            Some(refused) => Some((refused.id, refused.message@)),
            None => None,
        }) == refusal_of(
            match message {
                Some(json) => Some(json@),
                None => None,
            },
        ),
{
    match message {
        None => Some(RefusedMessage { id: None, message: NOT_A_MESSAGE.to_owned() }),
        Some(json) => {
            let id = match json.get("id") {
                Some(n) => n.as_i64(),
                None => None,
            };
            let method = match json.get("method") {
                Some(m) => m.as_str(),
                None => None,
            };
            match method {
                None => Some(RefusedMessage { id, message: NOT_A_COMMAND.to_owned() }),
                Some(method) => if known_method(method) {
                    None
                } else {
                    Some(RefusedMessage { id, message: method.to_owned().concat(NOT_CARRIED) })
                },
            }
        },
    }
}

/// Whether one message from the client may be forwarded, or the refusal to
/// send back in its place.
pub fn screencast_allows(raw: &str) -> (r: Result<(), String>)
    ensures
        match refusal_of(json::json_document(raw@)) {
            None => r is Ok,
            Some(refusal) => r matches Err(answer) && answer@ == json::json_text(
                refusal_tree(refusal),
            ) && json::json_document(answer@) == Some(refusal_tree(refusal)),
        },
{
    let message = json::parse(raw);
    match judge(&message) {
        None => Ok(()),
        Some(refused) => Err(cdp_refusal(refused.id, refused.message.as_str())),
    }
}

/// A refusal carries the number of the command that it answers, so the client
/// can match the two.
pub proof fn refusal_answers_the_command(message: JsonTree)
    requires
        refusal_of(Some(message)) is Some,
    ensures
        ({
            let answer = refusal_tree(refusal_of(Some(message))->0);
            &&& json::int_value(json::member(answer, "id"@)) == json::int_value(
                json::member(message, "id"@),
            )
            &&& json::member(answer, "method"@) is None
            &&& refusal_of(Some(answer)) is Some
        }),
{
    let refusal = refusal_of(Some(message))->0;
    let members = refusal_tree(refusal)->Object_0;
    reveal_strlit("error");
    reveal_strlit("id");
    reveal_strlit("method");
    reveal_with_fuel(text::lookup, 3);
    assert("error"@.len() != "id"@.len());
    assert("error"@.len() != "method"@.len());
    assert("id"@.len() != "method"@.len());
    assert(members.skip(1)[0] == members[1]);
}

/// Nothing but the commands on the list is ever forwarded.
pub proof fn only_listed_commands_pass(message: Option<JsonTree>)
    ensures
        refusal_of(message) is None ==> exists|i: int|
            0 <= i < 7 && message is Some && targets::member_text(message->0, "method"@) == Some(
                (#[trigger] SCREENCAST_METHODS@[i])@,
            ),
{
}

// ---------------------------------------------------------------------------
// A session
// ---------------------------------------------------------------------------

/// A frame from the client's side of a session.
pub enum ClientFrame {
    Text(String),
    Binary,
    Close,
    Ping,
    Pong,
}

/// What becomes of a frame.
pub enum Step {
    Forward,
    /// It does not go on; this goes back instead.
    Answer(String),
    Skip,
    /// The session ends.
    Stop,
}

/// What becomes of a frame from the client.
pub fn client_step(frame: &ClientFrame, full_devtools: bool) -> (r: Step)
    ensures
        match frame {
            ClientFrame::Text(raw) => if full_devtools {
                r is Forward
            } else {
                match refusal_of(json::json_document(raw@)) {
                    None => r is Forward,
                    Some(refusal) => r matches Step::Answer(answer) && json::json_document(
                        answer@,
                    ) == Some(refusal_tree(refusal)) && answer@ == json::json_text(
                        refusal_tree(refusal),
                    ),
                }
            },
            ClientFrame::Binary => if full_devtools {
                r is Forward
            } else {
                r is Skip
            },
            ClientFrame::Close => r is Stop,
            ClientFrame::Ping | ClientFrame::Pong => r is Skip,
        },
{
    match frame {
        ClientFrame::Text(raw) => {
            if full_devtools {
                return Step::Forward;
            }
            match screencast_allows(raw.as_str()) {
                Ok(_) => Step::Forward,
                Err(answer) => Step::Answer(answer),
            }
        },
        ClientFrame::Binary => if full_devtools {
            Step::Forward
        } else {
            Step::Skip
        },
        ClientFrame::Close => Step::Stop,
        ClientFrame::Ping | ClientFrame::Pong => Step::Skip,
    }
}

/// What comes from Chromium's side of a session.
#[derive(Clone, Copy, Debug, PartialEq, Eq, Structural)]
pub enum UpstreamFrame {
    Text,
    Binary,
    Ping,
    Pong,
    Raw,
    Close,
    /// The connection failed or ended.
    Gone,
}

/// What becomes of what comes from Chromium.
pub fn upstream_step(frame: UpstreamFrame) -> (r: Step)
    ensures
        match frame {
            UpstreamFrame::Text | UpstreamFrame::Binary => r is Forward,
            UpstreamFrame::Ping | UpstreamFrame::Pong | UpstreamFrame::Raw => r is Skip,
            UpstreamFrame::Close | UpstreamFrame::Gone => r is Stop,
        },
{
    match frame {
        UpstreamFrame::Text | UpstreamFrame::Binary => Step::Forward,
        UpstreamFrame::Ping | UpstreamFrame::Pong | UpstreamFrame::Raw => Step::Skip,
        UpstreamFrame::Close | UpstreamFrame::Gone => Step::Stop,
    }
}

/// What a session meets.
pub enum SessionEvent {
    /// A frame from the client.
    Client(ClientFrame),
    /// The client's connection failed or ended.
    ClientGone,
    /// Something from Chromium.
    Upstream(UpstreamFrame),
    /// The link that the session is open on was revoked or ran out of time.
    LinkEnded,
}

/// What becomes of what a session meets. A frame goes on, is answered or is
/// left out by the rules of its side; the session stops when either side is
/// gone, and when its link has ended.
pub fn session_step(event: &SessionEvent, full_devtools: bool) -> (r: Step)
    ensures
        match event {
            SessionEvent::Client(ClientFrame::Text(raw)) => if full_devtools {
                r is Forward
            } else {
                match refusal_of(json::json_document(raw@)) {
                    None => r is Forward,
                    Some(refusal) => r matches Step::Answer(answer) && answer@ == json::json_text(
                        refusal_tree(refusal),
                    ) && json::json_document(answer@) == Some(refusal_tree(refusal)),
                }
            },
            SessionEvent::Client(ClientFrame::Binary) => if full_devtools {
                r is Forward
            } else {
                r is Skip
            },
            SessionEvent::Client(ClientFrame::Ping)
            | SessionEvent::Client(ClientFrame::Pong) => r is Skip,
            SessionEvent::Client(ClientFrame::Close) | SessionEvent::ClientGone => r is Stop,
            SessionEvent::Upstream(UpstreamFrame::Text)
            | SessionEvent::Upstream(UpstreamFrame::Binary) => r is Forward,
            SessionEvent::Upstream(UpstreamFrame::Close)
            | SessionEvent::Upstream(UpstreamFrame::Gone) => r is Stop,
            SessionEvent::Upstream(_) => r is Skip,
            SessionEvent::LinkEnded => r is Stop,
        },
{
    match event {
        SessionEvent::Client(frame) => client_step(frame, full_devtools),
        SessionEvent::ClientGone => Step::Stop,
        SessionEvent::Upstream(frame) => upstream_step(*frame),
        SessionEvent::LinkEnded => Step::Stop,
    }
}

/// What becomes of a session when the names of ended links come: it stops if
/// its own is among them.
pub fn ended_step(ended: &Vec<String>, link_id: &str) -> (r: Step)
    ensures
        if text::texts(ended@).contains(link_id@) {
            r is Stop
        } else {
            r is Skip
        },
{
    if text::is_among(ended, link_id) {
        Step::Stop
    } else {
        Step::Skip
    }
}

// ---------------------------------------------------------------------------
// Requests
// ---------------------------------------------------------------------------

pub const DISABLED: &'static str =
    "HTML remote control is disabled. Set cef.debug_port (or STROM_CEF_DEBUG_PORT) to enable it.";

pub const NO_SUCH_LINK: &'static str =
    "This remote control link is not valid. Links expire when unused; ask for a new one.";

pub const NO_HOST: &'static str = "Request carried no usable Host header";

pub const NO_APPLICATION: &'static str =
    "This instance does not serve the DevTools application. A remote control link carries the page itself; set cef.full_devtools to serve DevTools instead.";

pub const OUTSIDE_APPLICATION: &'static str = "Path outside the DevTools application";

pub const MALFORMED_TARGET: &'static str = "Malformed target id";

pub const GARBAGE: &'static str = "DevTools endpoint returned garbage";

/// Answer for every route when no debug port is configured.
pub fn disabled() -> (r: Reply)
    ensures
        r@ == (404u16, DISABLED@),
{
    reply(404, DISABLED)
}

/// What an expired, revoked or invented key gets.
pub fn no_such_link() -> (r: Reply)
    ensures
        r@ == (404u16, NO_SUCH_LINK@),
{
    reply(404, NO_SUCH_LINK)
}

/// The texts that tell an operator what a link hands over.
pub struct Warnings {
    pub full: String,
    pub filtered: String,
}

/// What to tell an operator that a link hands over, which depends on whether
/// the protocol is filtered.
pub fn link_warning(config: &DevToolsConfig, warnings: &Warnings) -> (r: String)
    ensures
        r@ == if config.full_devtools {
            warnings.full@
        } else {
            warnings.filtered@
        },
{
    if config.full_devtools {
        warnings.full.clone()
    } else {
        warnings.filtered.clone()
    }
}

/// The host header that counts: the forwarded one where there is one.
pub open spec fn host_header(forwarded: HeaderInfo, host: HeaderInfo) -> HeaderInfo {
    match forwarded {
        HeaderInfo::Absent => host,
        _ => forwarded,
    }
}

/// The host the client used to reach us, where it is a plain `host[:port]`.
pub open spec fn client_host_of(forwarded: HeaderInfo, host: HeaderInfo) -> Option<Seq<char>> {
    match host_header(forwarded, host) {
        HeaderInfo::Value(s) => if access::is_host(text::trimmed(s)) {
            Some(text::trimmed(s))
        } else {
            None
        },
        _ => None,
    }
}

fn bare_host(header: &HeaderField) -> (r: Option<String>)
    ensures
        r matches Some(h) ==> (header@ matches HeaderInfo::Value(s) && h@ == text::trimmed(s)
            && access::is_host(h@)),
        r is None ==> (header@ matches HeaderInfo::Value(s) ==> !access::is_host(
            text::trimmed(s),
        )),
{
    match header {
        HeaderField::Value(s) => {
            let host = text::trim(s.as_str());
            if access::valid_host(host.as_str()) {
                Some(host)
            } else {
                None
            }
        },
        _ => None,
    }
}

/// The host the client used to reach us. A forwarded host that is no plain
/// host is dropped; the other header is not consulted in its place.
pub fn client_host(forwarded: &HeaderField, host: &HeaderField) -> (r: Option<String>)
    ensures
        r matches Some(h) ==> client_host_of(forwarded@, host@) == Some(h@),
        r is None ==> client_host_of(forwarded@, host@) is None,
{
    match forwarded {
        HeaderField::Absent => bare_host(host),
        _ => bare_host(forwarded),
    }
}

/// The client's side of the connection is HTTPS. What a reverse proxy says
/// outranks our own socket; a chain of them lists the client's side first.
pub open spec fn is_secure(forwarded_proto: HeaderInfo, tls: bool) -> bool {
    match forwarded_proto {
        HeaderInfo::Value(s) => text::trimmed(text::split(s, ',')[0]) == "https"@,
        _ => tls,
    }
}

/// Whether the client's side of the connection is HTTPS.
pub fn client_is_secure(forwarded_proto: &HeaderField, config: &DevToolsConfig) -> (r: bool)
    ensures
        r == is_secure(forwarded_proto@, config.tls),
{
    match forwarded_proto {
        HeaderField::Value(s) => {
            let parts = text::split_text(s.as_str(), ',');
            let first = text::trim(parts[0].as_str());
            proof {
                assert(text::texts(parts@)[0] == parts@[0]@);
            }
            text::same(first.as_str(), "https")
        },
        _ => config.tls,
    }
}

pub open spec fn is_unreserved(b: u8) -> bool {
    ||| 48 <= b <= 57
    ||| 65 <= b <= 90
    ||| 97 <= b <= 122
    ||| b == 45
    ||| b == 46
    ||| b == 95
    ||| b == 126
}

pub open spec fn hex_char(d: u8) -> char {
    if d < 10 {
        (48 + d) as char
    } else {
        (55 + d) as char
    }
}

/// Bytes with everything but letters, digits and `-`, `.`, `_`, `~` as a
/// percent sign and two hexadecimal digits.
pub open spec fn percent_encoded(bytes: Seq<u8>) -> Seq<char>
    decreases bytes.len(),
{
    if bytes.len() == 0 {
        Seq::empty()
    } else {
        let b = bytes.last();
        percent_encoded(bytes.drop_last()) + if is_unreserved(b) {
            seq![b as char]
        } else {
            seq!['%', hex_char((b / 16) as u8), hex_char((b % 16) as u8)]
        }
    }
}

/// `urlencoding::encode`: the text with every byte of its UTF-8 form escaped
/// that is no letter, digit or `-`, `.`, `_`, `~`.
#[verifier::external_body]
fn url_encode(s: &str) -> (r: String)
    ensures
        r@ == percent_encoded(vstd::utf8::encode_utf8(s@)),
{
    urlencoding::encode(s).into_owned()
}

/// Where the DevTools application is opened, told to reach us at the host.
pub open spec fn inspector_path(key: Seq<char>, host: Seq<char>, secure: bool) -> Seq<char> {
    "/devtools/"@ + key + "/ui/inspector.html?"@ + (if secure {
        "wss"@
    } else {
        "ws"@
    }) + "="@ + percent_encoded(vstd::utf8::encode_utf8(host)) + "/devtools/"@ + key + "/ws"@
}

fn inspector_location(key: &str, host: &str, secure: bool) -> (r: String)
    ensures
        r@ == inspector_path(key@, host@, secure),
{
    let encoded = url_encode(host);
    let param = if secure {
        "wss"
    } else {
        "ws"
    };
    "/devtools/".to_owned().concat(key).concat("/ui/inspector.html?").concat(param).concat(
        "=",
    ).concat(encoded.as_str()).concat("/devtools/").concat(key).concat("/ws")
}

/// What opening a link leads to.
pub enum Opened {
    Refused(Reply),
    /// Our own remote control page is served.
    RemoteControlPage,
    /// The DevTools application is opened at this path.
    Redirect(String),
}

/// What opening a link leads to, as values.
pub enum OpenedInfo {
    Refused(ReplyInfo),
    RemoteControlPage,
    Redirect(Seq<char>),
}

impl View for Opened {
    type V = OpenedInfo;

    open spec fn view(&self) -> OpenedInfo {
        match self {
            Opened::Refused(reply) => OpenedInfo::Refused(reply@),
            Opened::RemoteControlPage => OpenedInfo::RemoteControlPage,
            Opened::Redirect(path) => OpenedInfo::Redirect(path@),
        }
    }
}

/// A key that was minted, is not revoked and has time left.
pub open spec fn key_works(state: DevToolsState, key: Seq<char>, now: u64) -> bool {
    access::is_key(key) && text::lookup(links::live(state.table(), now), key) is Some
}

/// The state after a key was looked up: expired links are gone, and the key's
/// time starts again.
pub open spec fn looked_up(
    before: DevToolsState,
    after: DevToolsState,
    key: Seq<char>,
    now: u64,
) -> bool {
    &&& after.well_formed()
    &&& after.config == before.config
    &&& after.ended_ids() == before.ended_ids() + links::expired_ids(before.table(), now)
    &&& after.table() == match text::lookup(links::live(before.table(), now), key) {
        Some(link) => links::with_link(links::live(before.table(), now), key, links::renewed(link, now)),
        None => links::live(before.table(), now),
    }
}

/// The address of a file that Chromium serves on its debug port.
pub open spec fn devtools_url(port: u16, path: Seq<char>, query: Option<Seq<char>>) -> Seq<char> {
    "http://127.0.0.1:"@ + text::decimal(port as nat) + "/"@ + path + match query {
        Some(q) => if q.len() > 0 {
            "?"@ + q
        } else {
            Seq::empty()
        },
        None => Seq::empty(),
    }
}

pub open spec fn optional_text(s: Option<String>) -> Option<Seq<char>> {
    match s {
        Some(s) => Some(s@),
        None => None,
    }
}

/// The address of a file that Chromium serves on its debug port.
pub fn proxy_url(port: u16, path: &str, query: &Option<String>) -> (r: String)
    ensures
        r@ == devtools_url(port, path@, optional_text(*query)),
{
    let number = text::u64_text(port as u64);
    let base = "http://127.0.0.1:".to_owned().concat(number.as_str()).concat("/").concat(path);
    let ghost base_text = base@;
    match query {
        Some(q) => if q.as_str().is_empty() {
            assert(base@ =~= base@ + Seq::<char>::empty());
            base
        } else {
            let url = base.concat("?").concat(q.as_str());
            assert(url@ =~= base_text + ("?"@ + q@));
            url
        },
        None => {
            assert(base@ =~= base@ + Seq::<char>::empty());
            base
        },
    }
}

/// A session to open: the socket to connect to, the page, and the link's name.
pub struct SessionPlan {
    pub upstream: String,
    pub target_id: String,
    pub link_id: String,
}

/// A minted link as it is handed out.
pub struct DevToolsLink {
    pub id: String,
    pub path: String,
    pub expires_in_seconds: u64,
    pub warning: String,
}

impl DevToolsState {
    /// Opens the page a key was minted for.
    pub fn open_link(
        &mut self,
        key: &str,
        forwarded_host: &HeaderField,
        host: &HeaderField,
        forwarded_proto: &HeaderField,
        now: u64,
    ) -> (r: Opened)
        requires
            old(self).well_formed(),
            now + LINK_TTL <= u64::MAX,
        ensures
            final(self).well_formed(),
            r@ == if old(self).config.debug_port is None {
                OpenedInfo::Refused((404, DISABLED@))
            } else if !key_works(*old(self), key@, now) {
                OpenedInfo::Refused((404, NO_SUCH_LINK@))
            } else if !old(self).config.full_devtools {
                OpenedInfo::RemoteControlPage
            } else {
                match client_host_of(forwarded_host@, host@) {
                    None => OpenedInfo::Refused((400, NO_HOST@)),
                    Some(address) => OpenedInfo::Redirect(
                        inspector_path(
                            key@,
                            address,
                            is_secure(forwarded_proto@, old(self).config.tls),
                        ),
                    ),
                }
            },
            if old(self).config.debug_port is Some && access::is_key(key@) {
                looked_up(*old(self), *final(self), key@, now)
            } else {
                *final(self) == *old(self)
            },
    {
        if self.config.debug_port.is_none() {
            return Opened::Refused(disabled());
        }
        if !access::valid_key(key) {
            return Opened::Refused(no_such_link());
        }
        if self.resolve(key, now).is_none() {
            return Opened::Refused(no_such_link());
        }
        if !self.config.full_devtools {
            return Opened::RemoteControlPage;
        }
        match client_host(forwarded_host, host) {
            None => Opened::Refused(reply(400, NO_HOST)),
            Some(address) => {
                let secure = client_is_secure(forwarded_proto, &self.config);
                Opened::Redirect(inspector_location(key, address.as_str(), secure))
            },
        }
    }

    /// The address that a file of the DevTools application is fetched from.
    pub fn proxy_ui(&mut self, key: &str, path: &str, query: &Option<String>, now: u64) -> (r:
        Result<String, Reply>)
        requires
            old(self).well_formed(),
            now + LINK_TTL <= u64::MAX,
        ensures
            final(self).well_formed(),
            match (old(self).config.debug_port, old(self).config.full_devtools) {
                (None, _) => r matches Err(e) && e@ == (404u16, DISABLED@),
                (Some(_), false) => r matches Err(e) && e@ == (404u16, NO_APPLICATION@),
                (Some(port), true) => if !key_works(*old(self), key@, now) {
                    r matches Err(e) && e@ == (404u16, NO_SUCH_LINK@)
                } else if !access::is_asset_path(path@) {
                    r matches Err(e) && e@ == (400u16, OUTSIDE_APPLICATION@)
                } else {
                    r matches Ok(url) && url@ == devtools_url(
                        port,
                        "devtools/"@ + path@,
                        optional_text(*query),
                    )
                },
            },
            if old(self).config.debug_port is Some && old(self).config.full_devtools
                && access::is_key(key@) {
                looked_up(*old(self), *final(self), key@, now)
            } else {
                *final(self) == *old(self)
            },
    {
        match self.config.debug_port {
            None => Err(disabled()),
            Some(port) => {
                if !self.config.full_devtools {
                    return Err(reply(404, NO_APPLICATION));
                }
                if !access::valid_key(key) {
                    return Err(no_such_link());
                }
                if self.resolve(key, now).is_none() {
                    return Err(no_such_link());
                }
                if !access::safe_asset_path(path) {
                    return Err(reply(400, OUTSIDE_APPLICATION));
                }
                let inside = "devtools/".to_owned().concat(path);
                Ok(proxy_url(port, inside.as_str(), query))
            },
        }
    }

    /// Opens a session on the page a key was minted for.
    pub fn proxy_cdp(&mut self, key: &str, now: u64) -> (r: Result<SessionPlan, Reply>)
        requires
            old(self).well_formed(),
            now + LINK_TTL <= u64::MAX,
        ensures
            final(self).well_formed(),
            match old(self).config.debug_port {
                None => r matches Err(e) && e@ == (404u16, DISABLED@),
                Some(port) => if !key_works(*old(self), key@, now) {
                    r matches Err(e) && e@ == (404u16, NO_SUCH_LINK@)
                } else {
                    let link = text::lookup(links::live(old(self).table(), now), key@)->0;
                    r matches Ok(plan) && plan.target_id@ == link.target_id && plan.link_id@
                        == link.id && plan.upstream@ == "ws://127.0.0.1:"@ + text::decimal(
                        port as nat,
                    ) + "/devtools/page/"@ + link.target_id
                },
            },
            if old(self).config.debug_port is Some && access::is_key(key@) {
                looked_up(*old(self), *final(self), key@, now)
            } else {
                *final(self) == *old(self)
            },
    {
        match self.config.debug_port {
            None => Err(disabled()),
            Some(port) => {
                if !access::valid_key(key) {
                    return Err(no_such_link());
                }
                match self.open_session(key, now) {
                    None => Err(no_such_link()),
                    Some((target_id, link_id)) => {
                        let number = text::u64_text(port as u64);
                        let upstream = "ws://127.0.0.1:".to_owned().concat(
                            number.as_str(),
                        ).concat("/devtools/page/").concat(target_id.as_str());
                        Ok(SessionPlan { upstream, target_id, link_id })
                    },
                }
            },
        }
    }

    /// Revokes a link by its name. What has no name's shape is not looked up.
    pub fn revoke_link(&mut self, id: &str, now: u64) -> (r: Result<(), Reply>)
        requires
            old(self).well_formed(),
        ensures
            final(self).well_formed(),
            final(self).config == old(self).config,
            r is Ok <==> access::is_link_id(id@) && crate::devtools::links::position_of_id(
                links::live(old(self).table(), now),
                id@,
            ) is Some,
            r matches Err(e) ==> e@ == (404u16, NO_SUCH_LINK@),
            if !access::is_link_id(id@) {
                *final(self) == *old(self)
            } else {
                match crate::devtools::links::position_of_id(links::live(old(self).table(), now), id@) {
                    Some(i) => final(self).table() == links::live(old(self).table(), now).remove(i)
                        && final(self).ended_ids() == old(self).ended_ids() + links::expired_ids(
                        old(self).table(),
                        now,
                    ) + seq![id@],
                    None => final(self).table() == links::live(old(self).table(), now)
                        && final(self).ended_ids() == old(self).ended_ids() + links::expired_ids(
                        old(self).table(),
                        now,
                    ),
                }
            },
    {
        if !access::valid_link_id(id) {
            return Err(no_such_link());
        }
        if self.revoke_by_id(id, now) {
            Ok(())
        } else {
            Err(no_such_link())
        }
    }

    /// Mints a link for a page and describes it to the operator.
    pub fn minted(
        &mut self,
        target_id: String,
        target_url: String,
        warnings: &Warnings,
        now: u64,
    ) -> (r: DevToolsLink)
        requires
            old(self).well_formed(),
            now + LINK_TTL <= u64::MAX,
        ensures
            final(self).well_formed(),
            final(self).config == old(self).config,
            link_minted(
                *old(self),
                *final(self),
                (target_id@, target_url@),
                r,
                *warnings,
                now,
            ),
    {
        let minted = self.mint(target_id, target_url, now);
        let path = "/devtools/".to_owned().concat(minted.key.as_str());
        DevToolsLink {
            id: minted.id,
            path,
            expires_in_seconds: LINK_TTL / 1000,
            warning: link_warning(&self.config, warnings),
        }
    }
}

// ---------------------------------------------------------------------------
// The list of pages
// ---------------------------------------------------------------------------

/// The pages offered for remote control.
pub struct DevToolsTargets {
    pub enabled: bool,
    pub warning: Option<String>,
    pub targets: Vec<targets::DevToolsTarget>,
}

/// The list when no debug port is configured, or nothing answers on it yet:
/// no page is offered. No source may have started, which is no fault.
pub fn no_targets(config: &DevToolsConfig, warnings: &Warnings) -> (r: DevToolsTargets)
    ensures
        r.targets@.len() == 0,
        r.enabled == config.debug_port is Some,
        optional_text(r.warning) == if config.debug_port is Some {
            Some(
                if config.full_devtools {
                    warnings.full@
                } else {
                    warnings.filtered@
                },
            )
        } else {
            None
        },
{
    if config.debug_port.is_none() {
        return DevToolsTargets { enabled: false, warning: None, targets: Vec::new() };
    }
    DevToolsTargets {
        enabled: true,
        warning: Some(link_warning(config, warnings)),
        targets: Vec::new(),
    }
}

/// The pages to offer, from what Chromium answered.
pub fn list_targets(config: &DevToolsConfig, warnings: &Warnings, body: &str) -> (r: Result<
    DevToolsTargets,
    Reply,
>)
    ensures
        match json::json_document(body@) {
            Some(JsonTree::Array(entries)) => {
                &&& r matches Ok(list) && list.enabled && targets::offers(list.targets@)
                    == entries.filter_map(|e: JsonTree| targets::offer_of(e))
                    && optional_text(list.warning) == Some(
                    if config.full_devtools {
                        warnings.full@
                    } else {
                        warnings.filtered@
                    },
                )
            },
            _ => r matches Err(e) && e@ == (502u16, GARBAGE@),
        },
{
    match targets::parse_target_list(body) {
        Some(entries) => Ok(
            DevToolsTargets {
                enabled: true,
                warning: Some(link_warning(config, warnings)),
                targets: targets::offered_targets(&entries),
            },
        ),
        None => Err(reply(502, GARBAGE)),
    }
}

/// Whether a target id in a request may be looked up.
pub fn check_target_id(config: &DevToolsConfig, target_id: &str) -> (r: Option<Reply>)
    ensures
        (match r {
            Some(reply) => Some(reply@),
            None => None,
        }) == target_refusal(*config, target_id@),
{
    if config.debug_port.is_none() {
        return Some(disabled());
    }
    if !access::valid_target_id(target_id) {
        return Some(reply(400, MALFORMED_TARGET));
    }
    None
}

/// A link was minted for a page: it is in the table, under a key that only its
/// path holds, and the links that ended are told.
pub open spec fn link_minted(
    before: DevToolsState,
    after: DevToolsState,
    page: targets::Page,
    link: DevToolsLink,
    warnings: Warnings,
    now: u64,
) -> bool {
    &&& access::is_link_id(link.id@)
    &&& link.expires_in_seconds == LINK_TTL / 1000
    &&& link.warning@ == if before.config.full_devtools {
        warnings.full@
    } else {
        warnings.filtered@
    }
    &&& exists|key: Seq<char>|
        access::is_key(key) && link.path@ == "/devtools/"@ + key && after.table()
            == #[trigger] links::inserted(
            links::live(before.table(), now),
            key,
            (LinkInfo {
                id: link.id@,
                target_id: page.0,
                target_url: page.1,
                expires: (now + LINK_TTL) as u64,
            }),
        ) && after.ended_ids() == before.ended_ids() + links::ended_by_minting(
            before.table(),
            key,
            now,
        )
}

/// Why no link is minted for a target id, before the pages are looked at.
pub open spec fn target_refusal(config: DevToolsConfig, target_id: Seq<char>) -> Option<ReplyInfo> {
    if config.debug_port is None {
        Some((404u16, DISABLED@))
    } else if !access::is_target_id(target_id) {
        Some((400u16, MALFORMED_TARGET@))
    } else {
        None
    }
}

impl DevToolsState {
    /// Mints a link for a page that is named by its target id, given the pages
    /// that Chromium renders and the HTML sources of the instance.
    pub fn create_link(
        &mut self,
        target_id: &str,
        pages: &Option<Vec<targets::PageTarget>>,
        sources: &Vec<targets::HtmlSource>,
        warnings: &Warnings,
        now: u64,
    ) -> (r: Result<DevToolsLink, Reply>)
        requires
            old(self).well_formed(),
            now + LINK_TTL <= u64::MAX,
        ensures
            final(self).well_formed(),
            final(self).config == old(self).config,
            match target_refusal(old(self).config, target_id@) {
                Some(refusal) => r matches Err(e) && e@ == refusal && *final(self) == *old(self),
                None => match targets::linked_page(
                    targets::optional_pages(*pages),
                    targets::source_infos(sources@),
                    target_id@,
                ) {
                    Err(refusal) => r matches Err(e) && e@ == refusal && *final(self) == *old(
                        self,
                    ),
                    Ok(page) => r matches Ok(link) && link_minted(
                        *old(self),
                        *final(self),
                        page,
                        link,
                        *warnings,
                        now,
                    ),
                },
            },
    {
        if let Some(refusal) = check_target_id(&self.config, target_id) {
            return Err(refusal);
        }
        match targets::link_target(pages, sources, target_id) {
            Err(refusal) => Err(refusal),
            Ok(page) => Ok(self.minted(page.id, page.url, warnings, now)),
        }
    }

    /// Mints a link for the page that a block renders, given the flow, the pages
    /// that Chromium renders and the HTML sources of the instance.
    pub fn create_block_link(
        &mut self,
        flow: &Option<Flow>,
        flow_id: u128,
        block_id: &str,
        pages: &Option<Vec<targets::PageTarget>>,
        sources: &Vec<targets::HtmlSource>,
        warnings: &Warnings,
        now: u64,
    ) -> (r: Result<DevToolsLink, Reply>)
        requires
            old(self).well_formed(),
            now + LINK_TTL <= u64::MAX,
        ensures
            final(self).well_formed(),
            final(self).config == old(self).config,
            if old(self).config.debug_port is None {
                r matches Err(e) && e@ == (404u16, DISABLED@) && *final(self) == *old(self)
            } else {
                match targets::block_refusal(*flow, block_id@) {
                    Some(refusal) => r matches Err(e) && e@ == refusal && *final(self) == *old(
                        self,
                    ),
                    None => match targets::block_page(
                        targets::optional_pages(*pages),
                        targets::source_infos(sources@),
                        flow_id,
                        block_id@,
                    ) {
                        Err(refusal) => r matches Err(e) && e@ == refusal && *final(self) == *old(
                            self,
                        ),
                        Ok(page) => r matches Ok(link) && link_minted(
                            *old(self),
                            *final(self),
                            page,
                            link,
                            *warnings,
                            now,
                        ),
                    },
                }
            },
    {
        if self.config.debug_port.is_none() {
            return Err(disabled());
        }
        if let Some(refusal) = targets::check_block(flow, block_id) {
            return Err(refusal);
        }
        match targets::block_link_target(pages, sources, flow_id, block_id) {
            Err(refusal) => Err(refusal),
            Ok(page) => Ok(self.minted(page.id, page.url, warnings, now)),
        }
    }
}

// ---------------------------------------------------------------------------
// What Chromium answers
// ---------------------------------------------------------------------------

pub const NOT_ANSWERING: &'static str =
    "DevTools endpoint is not answering - is a flow with an HTML source running?";

pub const WENT_AWAY: &'static str = "DevTools endpoint went away";

/// The content type of an answer that states none.
pub const DEFAULT_CONTENT_TYPE: &'static str = "application/octet-stream";

/// What a request is answered with when nothing listens on the debug port.
pub fn not_answering() -> (r: Reply)
    ensures
        r@ == (502u16, NOT_ANSWERING@),
{
    reply(502, NOT_ANSWERING)
}

/// What a request is answered with when an answer breaks off.
pub fn went_away() -> (r: Reply)
    ensures
        r@ == (502u16, WENT_AWAY@),
{
    reply(502, WENT_AWAY)
}

/// The content type that an answer is handed on with.
pub fn proxied_type(stated: &HeaderField) -> (r: String)
    ensures
        r@ == match stated@ {
            HeaderInfo::Value(s) => s,
            _ => DEFAULT_CONTENT_TYPE@,
        },
{
    match stated {
        HeaderField::Value(s) => s.clone(),
        _ => DEFAULT_CONTENT_TYPE.to_owned(),
    }
}

} // verus!
