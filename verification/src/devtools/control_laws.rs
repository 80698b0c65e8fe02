//! What a link is good for: laws on how long keys work, what they open, and
//! what may travel over a session.

use crate::devtools::access;
use crate::devtools::links;
use crate::devtools::links::{Action, DevToolsConfig, DevToolsState, LinkInfo, LinkTable};
use crate::devtools::session;
use crate::devtools::session::{DevToolsLink, Warnings};
use crate::devtools::targets::Page;
use crate::http::HeaderInfo;
use crate::json;
use crate::json::JsonTree;
use crate::sequences;
use crate::text;
use vstd::prelude::*;

verus! {

// ---------------------------------------------------------------------------
// Keys
// ---------------------------------------------------------------------------

/// What a key leads to at a time: its link, while that has time left.
pub open spec fn opens(table: LinkTable, key: Seq<char>, now: u64) -> Option<LinkInfo> {
    match text::lookup(table, key) {
        Some(link) => if now < link.expires {
            Some(link)
        } else {
            None
        },
        None => None,
    }
}

/// A minted key opens onto the page that it was minted for, and goes on to for
/// half an hour; no other key changes.
pub proof fn minted_key_opens_its_page(
    table: LinkTable,
    key: Seq<char>,
    link: LinkInfo,
    now: u64,
    other: Seq<char>,
    later: u64,
)
    requires
        links::keys_differ(table),
        now + 1_800_000 <= u64::MAX,
    ensures
        ({
            let after = links::stepped(table, Action::Mint(key, link), now);
            &&& now <= later < now + 1_800_000 ==> (opens(after, key, later) matches Some(found)
                && found.target_id == link.target_id && found.target_url == link.target_url
                && found.id == link.id)
            &&& later >= now + 1_800_000 ==> opens(after, key, later) is None
            &&& other != key && later >= now ==> opens(after, other, later) == opens(
                table,
                other,
                later,
            )
        }),
{
    let left = links::live(table, now);
    lemma_live(table, now);
    links::minted_key_leads_to_its_link(left, key, links::renewed(link, now), other);
    links::key_works_until_it_expires(table, other, now);
}

proof fn lemma_live(table: LinkTable, now: u64)
    requires
        links::keys_differ(table),
    ensures
        links::keys_differ(links::live(table, now)),
{
    let alive = |e: (Seq<char>, LinkInfo)| e.1.expires > now;
    let kept = links::live(table, now);
    lemma_filter_order(table, alive);
}

proof fn lemma_filter_order(table: LinkTable, keep: spec_fn((Seq<char>, LinkInfo)) -> bool)
    requires
        links::keys_differ(table),
    ensures
        links::keys_differ(table.filter(keep)),
        forall|i: int|
            0 <= i < table.filter(keep).len() ==> table.contains(#[trigger] table.filter(keep)[i]),
    decreases table.len(),
{
    reveal(Seq::filter);
    if table.len() > 0 {
        let init = table.drop_last();
        let kept = init.filter(keep);
        let all = table.filter(keep);
        assert(links::keys_differ(init)) by {
            assert forall|i: int, j: int| 0 <= i < j < init.len() implies (#[trigger] init[i]).0 != (
            #[trigger] init[j]).0 by {
                assert(table[i].0 != table[j].0);
            }
        }
        lemma_filter_order(init, keep);
        assert forall|i: int| 0 <= i < all.len() implies table.contains(#[trigger] all[i]) by {
            if i < kept.len() {
                assert(init.contains(kept[i]));
                let k = choose|k: int| 0 <= k < init.len() && init[k] == kept[i];
                assert(table[k] == all[i]);
            } else {
                assert(table[table.len() - 1] == all[i]);
            }
        }
        assert forall|i: int, j: int| 0 <= i < j < all.len() implies (#[trigger] all[i]).0 != (
        #[trigger] all[j]).0 by {
            if j == kept.len() {
                assert(init.contains(kept[i]));
                let k = choose|k: int| 0 <= k < init.len() && init[k] == kept[i];
                assert(table[k].0 != table[table.len() - 1].0);
            }
        }
    }
}

/// Using a key that works starts its half hour again and leaves what it opens
/// onto, and every other key, as it was. Using a key that does not work does
/// not bring it back.
pub proof fn use_starts_the_time_again(
    table: LinkTable,
    key: Seq<char>,
    now: u64,
    other: Seq<char>,
    later: u64,
)
    requires
        links::keys_differ(table),
        now + 1_800_000 <= u64::MAX,
        now <= later,
    ensures
        ({
            let after = links::stepped(table, Action::Use(key), now);
            &&& opens(table, key, now) matches Some(link) ==> {
                &&& later < now + 1_800_000 ==> (opens(after, key, later) matches Some(found)
                    && found.target_id == link.target_id && found.target_url == link.target_url
                    && found.id == link.id)
                &&& later >= now + 1_800_000 ==> opens(after, key, later) is None
            }
            &&& opens(table, key, now) is None ==> opens(after, key, later) is None
            &&& other != key ==> opens(after, other, later) == opens(table, other, later)
        }),
{
    let left = links::live(table, now);
    lemma_live(table, now);
    links::key_works_until_it_expires(table, key, now);
    links::key_works_until_it_expires(table, other, now);
    if let Some(link) = text::lookup(left, key) {
        links::using_a_key_leaves_the_others(left, key, link, links::renewed(link, now), other);
    }
}

/// Revoking a name ends the link with that name and no other. Revoking all
/// leaves none, and a sweep ends none that has time left.
pub proof fn revoking_ends_the_named_link(
    table: LinkTable,
    id: Seq<char>,
    now: u64,
    key: Seq<char>,
    later: u64,
)
    requires
        links::keys_differ(table),
        links::ids_differ(links::live(table, now)),
        now <= later,
    ensures
        opens(links::stepped(table, Action::Revoke(id), now), key, later) == (match opens(
            table,
            key,
            later,
        ) {
            Some(link) => if link.id == id {
                None
            } else {
                Some(link)
            },
            None => None,
        }),
        opens(links::stepped(table, Action::RevokeAll, now), key, later) is None,
        opens(links::stepped(table, Action::Sweep, now), key, later) == opens(table, key, later),
{
    let left = links::live(table, now);
    lemma_live(table, now);
    links::key_works_until_it_expires(table, key, now);
    links::lemma_position_of_id(left, id);
    text::lemma_lookup_finds(left, key);
    if let Some(i) = links::position_of_id(left, id) {
        links::lemma_removed(left, i, key);
        if let Some(link) = text::lookup(left, key) {
            let k = choose|k: int| 0 <= k < left.len() && #[trigger] left[k] == (key, link);
            if link.id == id {
                if k < i {
                    assert(left[k].1.id != left[i].1.id);
                } else if i < k {
                    assert(left[i].1.id != left[k].1.id);
                }
            } else {
                assert(left[i].0 != key) by {
                    if left[i].0 == key {
                        if k < i {
                            assert(left[k].0 != left[i].0);
                        } else if i < k {
                            assert(left[i].0 != left[k].0);
                        }
                    }
                }
            }
        }
    } else if let Some(link) = text::lookup(left, key) {
        let k = choose|k: int| 0 <= k < left.len() && #[trigger] left[k] == (key, link);
        assert(left[k].1.id != id);
    }
}

/// A listed link shows its name, the address of its page, and the whole
/// seconds that it has left.
pub proof fn listed_link_shows_its_seconds(link: LinkInfo, now: u64)
    ensures
        links::summary_of(link, now).0 == link.id,
        links::summary_of(link, now).1 == link.target_url,
        link.expires > now ==> links::summary_of(link, now).2 * 1000 <= link.expires - now < (
        links::summary_of(link, now).2 + 1) * 1000,
        link.expires <= now ==> links::summary_of(link, now).2 == 0,
{
}

// ---------------------------------------------------------------------------
// Sessions
// ---------------------------------------------------------------------------

/// A command that shows the page, clicks or types.
pub open spec fn is_for_remote_control(method: Seq<char>) -> bool {
    ||| method == "Input.dispatchKeyEvent"@
    ||| method == "Input.dispatchMouseEvent"@
    ||| method == "Input.insertText"@
    ||| method == "Page.enable"@
    ||| method == "Page.screencastFrameAck"@
    ||| method == "Page.startScreencast"@
    ||| method == "Page.stopScreencast"@
}

/// A message is forwarded exactly where it is a command that shows the page,
/// clicks or types. Any other is refused, with the number that it was sent
/// under.
pub proof fn remote_control_shows_clicks_and_types(message: JsonTree)
    ensures
        session::refusal_of(Some(message)) is None <==> (json::member(
            message,
            "method"@,
        ) matches Some(JsonTree::Text(method)) && is_for_remote_control(method)),
        session::refusal_of(Some(message)) matches Some(refusal) ==> refusal.0 == json::int_value(
            json::member(message, "id"@),
        ),
        session::refusal_of(None) matches Some(refusal) && refusal.0 is None && refusal.1
            == "Not a DevTools protocol message"@,
        !(json::member(message, "method"@) matches Some(JsonTree::Text(_))) ==> (
        session::refusal_of(Some(message)) matches Some(refusal) && refusal.1
            == "A remote control session sends commands, nothing else"@),
        session::refusal_of(Some(message)) matches Some(refusal) ==> (json::member(
            message,
            "method"@,
        ) matches Some(JsonTree::Text(method)) ==> refusal.1 == method
            + " is not available over a remote control link, which carries the page's picture, clicks and keystrokes only"@),
{
    let methods = session::SCREENCAST_METHODS@;
    assert(methods[0]@ == "Input.dispatchKeyEvent"@);
    assert(methods[1]@ == "Input.dispatchMouseEvent"@);
    assert(methods[2]@ == "Input.insertText"@);
    assert(methods[3]@ == "Page.enable"@);
    assert(methods[4]@ == "Page.screencastFrameAck"@);
    assert(methods[5]@ == "Page.startScreencast"@);
    assert(methods[6]@ == "Page.stopScreencast"@);
    if let Some(JsonTree::Text(method)) = json::member(message, "method"@) {
        if session::is_screencast_method(method) {
            let i = choose|i: int| 0 <= i < 7 && (#[trigger] methods[i])@ == method;
            assert(i == 0 || i == 1 || i == 2 || i == 3 || i == 4 || i == 5 || i == 6);
        }
        let why = method + session::NOT_CARRIED@;
        assert(why.subrange(0, method.len() as int) =~= method);
    }
}

/// A refusal is an error against the number of the command, with the
/// protocol's code for a method that is not there and the reason.
pub proof fn refusal_names_number_and_reason(id: Option<i64>, reason: Seq<char>)
    ensures
        ({
            let answer = session::refusal_tree((id, reason));
            &&& json::int_value(json::member(answer, "id"@)) == id
            &&& id is None ==> json::member(answer, "id"@) == Some(JsonTree::Null)
            &&& json::member(answer, "error"@) matches Some(error) && json::int_value(
                json::member(error, "code"@),
            ) == Some(-32601i64) && json::member(error, "message"@) == Some(
                JsonTree::Text(reason),
            )
        }),
{
    let members = session::refusal_tree((id, reason))->Object_0;
    let error = members[0].1->Object_0;
    reveal_strlit("error");
    reveal_strlit("id");
    reveal_strlit("code");
    reveal_strlit("message");
    reveal_with_fuel(text::lookup, 3);
    assert("error"@.len() != "id"@.len());
    assert("code"@.len() != "message"@.len());
    assert(members.skip(1)[0] == members[1]);
    assert(error.skip(1)[0] == error[1]);
}

// ---------------------------------------------------------------------------
// Requests
// ---------------------------------------------------------------------------

/// The host is the forwarded one where that header is there, and else the
/// request's own, without the white space around it; it counts only where it
/// is a bare host.
pub proof fn forwarded_host_comes_first(forwarded: HeaderInfo, host: HeaderInfo, s: Seq<char>)
    ensures
        forwarded == HeaderInfo::Value(s) && access::is_host(text::trimmed(s))
            ==> session::client_host_of(forwarded, host) == Some(text::trimmed(s)),
        forwarded == HeaderInfo::Value(s) && !access::is_host(text::trimmed(s))
            ==> session::client_host_of(forwarded, host) is None,
        forwarded is Unreadable ==> session::client_host_of(forwarded, host) is None,
        forwarded is Absent && host == HeaderInfo::Value(s) && access::is_host(text::trimmed(s))
            ==> session::client_host_of(forwarded, host) == Some(text::trimmed(s)),
        forwarded is Absent && !(host is Value) ==> session::client_host_of(
            forwarded,
            host,
        ) is None,
{
}

/// The client's side is secure where the first protocol that a proxy names is
/// `https`; where none names any, where this instance itself is.
pub proof fn first_proxy_says_whether_secure(
    header: HeaderInfo,
    tls: bool,
    first: Seq<char>,
    rest: Seq<Seq<char>>,
)
    requires
        !first.contains(','),
        forall|i: int| 0 <= i < rest.len() ==> !(#[trigger] rest[i]).contains(','),
    ensures
        !(header is Value) ==> session::is_secure(header, tls) == tls,
        session::is_secure(
            HeaderInfo::Value(text::join(seq![first] + rest, seq![','])),
            tls,
        ) == (text::trimmed(first) == "https"@),
{
    let parts = seq![first] + rest;
    assert forall|i: int| 0 <= i < parts.len() implies !(#[trigger] parts[i]).contains(',') by {
        if i > 0 {
            assert(parts[i] == rest[i - 1]);
        }
    }
    text::split_undoes_join(parts, ',');
}

/// A letter, digit or one of four marks stands for itself in an address; any
/// other byte is a percent sign and its two hexadecimal digits.
pub proof fn other_bytes_are_escaped(bytes: Seq<u8>, b: u8)
    ensures
        session::percent_encoded(bytes.push(b)) == session::percent_encoded(bytes) + (
        if is_letter_or_digit(b as char) || b as char == '-' || b as char == '.' || b as char == '_'
            || b as char == '~' {
            seq![b as char]
        } else {
            seq!['%', upper_hex((b / 16) as int), upper_hex((b % 16) as int)]
        }),
        session::percent_encoded(Seq::empty()) == Seq::<char>::empty(),
{
    assert(bytes.push(b).drop_last() =~= bytes);
    assert(b as char as u8 == b);
}

/// A hexadecimal digit in upper case.
pub open spec fn upper_hex(d: int) -> char {
    seq![
        '0',
        '1',
        '2',
        '3',
        '4',
        '5',
        '6',
        '7',
        '8',
        '9',
        'A',
        'B',
        'C',
        'D',
        'E',
        'F',
    ][d]
}

/// The DevTools application is opened under the key's own path, and is told to
/// connect back to the host under the same key, securely where the client is.
pub proof fn application_connects_back_under_its_key(
    key: Seq<char>,
    host: Seq<char>,
    port: u16,
    path: Seq<char>,
    query: Seq<char>,
)
    ensures
        session::inspector_path(key, host, true) == "/devtools/"@ + key
            + "/ui/inspector.html?wss="@ + session::percent_encoded(
            vstd::utf8::encode_utf8(host),
        ) + "/devtools/"@ + key + "/ws"@,
        session::inspector_path(key, host, false) == "/devtools/"@ + key
            + "/ui/inspector.html?ws="@ + session::percent_encoded(
            vstd::utf8::encode_utf8(host),
        ) + "/devtools/"@ + key + "/ws"@,
        session::devtools_url(port, path, None) == "http://127.0.0.1:"@ + text::decimal(port as nat)
            + "/"@ + path,
        query.len() > 0 ==> session::devtools_url(port, path, Some(query)) == "http://127.0.0.1:"@
            + text::decimal(port as nat) + "/"@ + path + "?"@ + query,
        query.len() == 0 ==> session::devtools_url(port, path, Some(query)) == "http://127.0.0.1:"@
            + text::decimal(port as nat) + "/"@ + path,
{
    reveal_strlit("/ui/inspector.html?");
    reveal_strlit("/ui/inspector.html?wss=");
    reveal_strlit("/ui/inspector.html?ws=");
    reveal_strlit("wss");
    reveal_strlit("ws");
    reveal_strlit("=");
    let encoded = session::percent_encoded(vstd::utf8::encode_utf8(host));
    assert(session::inspector_path(key, host, true) =~= "/devtools/"@ + key
        + "/ui/inspector.html?wss="@ + encoded + "/devtools/"@ + key + "/ws"@);
    assert(session::inspector_path(key, host, false) =~= "/devtools/"@ + key
        + "/ui/inspector.html?ws="@ + encoded + "/devtools/"@ + key + "/ws"@);
    let base = "http://127.0.0.1:"@ + text::decimal(port as nat) + "/"@ + path;
    assert(session::devtools_url(port, path, None) =~= base);
    if query.len() > 0 {
        assert(session::devtools_url(port, path, Some(query)) =~= base + "?"@ + query);
    } else {
        assert(session::devtools_url(port, path, Some(query)) =~= base);
    }
}

/// A request under a target id is refused where remote control is disabled, and
/// where the id is malformed, and nowhere else.
pub proof fn malformed_targets_are_refused(config: DevToolsConfig, target_id: Seq<char>)
    ensures
        config.debug_port is None ==> (session::target_refusal(config, target_id) matches Some(
            reply,
        ) && reply == (
            404u16,
            "HTML remote control is disabled. Set cef.debug_port (or STROM_CEF_DEBUG_PORT) to enable it."@,
        )),
        config.debug_port is Some && !access::is_target_id(target_id) ==> (session::target_refusal(
            config,
            target_id,
        ) matches Some(reply) && reply == (400u16, "Malformed target id"@)),
        config.debug_port is Some && access::is_target_id(target_id) ==> session::target_refusal(
            config,
            target_id,
        ) is None,
{
}

// ---------------------------------------------------------------------------
// Shapes
// ---------------------------------------------------------------------------

/// A hexadecimal digit.
pub open spec fn is_hex(c: char) -> bool {
    ('0' <= c <= '9') || ('a' <= c <= 'f') || ('A' <= c <= 'F')
}

/// Keys are 64 hexadecimal digits, names of links 32, and target ids one to 64
/// of them and hyphens.
pub proof fn shapes_are_hexadecimal(s: Seq<char>)
    ensures
        access::is_key(s) <==> s.len() == 64 && forall|i: int|
            0 <= i < s.len() ==> is_hex(#[trigger] s[i]),
        access::is_link_id(s) <==> s.len() == 32 && forall|i: int|
            0 <= i < s.len() ==> is_hex(#[trigger] s[i]),
        access::is_target_id(s) <==> 1 <= s.len() <= 64 && forall|i: int|
            0 <= i < s.len() ==> is_hex(#[trigger] s[i]) || s[i] == '-',
{
    let hex = |c: char| text::is_hex_digit(c);
    let id = |c: char| text::is_hex_digit(c) || c == '-';
    assert forall|c: char| hex(c) == #[trigger] is_hex(c) by {}
    if text::all_chars(s, hex) {
        assert forall|i: int| 0 <= i < s.len() implies is_hex(#[trigger] s[i]) by {
            assert(hex(s[i]));
        }
    }
    if text::all_chars(s, id) {
        assert forall|i: int| 0 <= i < s.len() implies is_hex(#[trigger] s[i]) || s[i] == '-' by {
            assert(id(s[i]));
        }
    }
}

/// A letter or a digit.
pub open spec fn is_letter_or_digit(c: char) -> bool {
    ('0' <= c <= '9') || ('a' <= c <= 'z') || ('A' <= c <= 'Z')
}

/// A path inside the DevTools application never starts at the root, never goes
/// up, and holds nothing but letters, digits and a few marks.
pub proof fn asset_paths_stay_inside(path: Seq<char>)
    ensures
        access::is_asset_path(path) <==> {
            &&& 1 <= path.len() <= 512
            &&& path[0] != '/'
            &&& forall|i: int|
                0 <= i < text::split(path, '/').len() ==> #[trigger] text::split(path, '/')[i]
                    != ".."@
            &&& forall|i: int|
                0 <= i < path.len() ==> is_letter_or_digit(#[trigger] path[i]) || path[i] == '/'
                    || path[i] == '.' || path[i] == '_' || path[i] == '-' || path[i] == '@'
        },
{
    let ok = |c: char| access::is_asset_char(c);
    let parts = text::split(path, '/');
    if parts.contains(".."@) {
        let i = choose|i: int| 0 <= i < parts.len() && parts[i] == ".."@;
        assert(parts[i] == ".."@);
    }
    if text::all_chars(path, ok) {
        assert forall|i: int| 0 <= i < path.len() implies is_letter_or_digit(#[trigger] path[i])
            || path[i] == '/' || path[i] == '.' || path[i] == '_' || path[i] == '-' || path[i]
            == '@' by {
            assert(ok(path[i]));
        }
    }
}

/// A name of letters, digits, dots, hyphens and underscores is a host, unless
/// it begins with a dot; so is one with one to five digits behind a colon, and
/// with anything else there it is none.
pub proof fn hosts_are_names_with_ports(name: Seq<char>, port: Seq<char>)
    requires
        name.len() > 0,
        name[0] != '.',
        forall|i: int|
            0 <= i < name.len() ==> is_letter_or_digit(#[trigger] name[i]) || name[i] == '.'
                || name[i] == '-' || name[i] == '_',
        forall|i: int| 0 <= i < port.len() ==> #[trigger] port[i] != ':' && port[i] != ']',
        name.len() + 1 + port.len() <= 255,
    ensures
        access::is_host(name),
        access::is_host(name + seq![':'] + port) <==> 1 <= port.len() <= 5 && forall|i: int|
            0 <= i < port.len() ==> '0' <= #[trigger] port[i] <= '9',
{
    let ok = |c: char| access::is_host_char(c);
    assert forall|i: int| 0 <= i < name.len() implies ok(#[trigger] name[i]) by {}
    assert forall|i: int| 0 <= i < name.len() implies #[trigger] name[i] != ':' by {}
    lemma_no_position(name, ':');
    assert(access::is_host(name));
    let whole = name + seq![':'] + port;
    lemma_position(name, port);
    let tail = whole.skip(name.len() as int);
    assert(!tail.contains(']')) by {
        if tail.contains(']') {
            let k = choose|k: int| 0 <= k < tail.len() && tail[k] == ']';
            if k > 0 {
                assert(port[k - 1] == ']');
            }
        }
    }
    assert(whole.take(name.len() as int) =~= name);
    assert(whole.skip(name.len() as int + 1) =~= port);
    let digit = |c: char| text::is_digit(c);
    if text::all_chars(port, digit) {
        assert forall|i: int| 0 <= i < port.len() implies '0' <= #[trigger] port[i] <= '9' by {
            assert(digit(port[i]));
        }
    }
}

proof fn lemma_no_position(s: Seq<char>, c: char)
    requires
        forall|i: int| 0 <= i < s.len() ==> #[trigger] s[i] != c,
    ensures
        access::last_position(s, c) is None,
    decreases s.len(),
{
    if s.len() > 0 {
        assert(s[s.len() - 1] != c);
        lemma_no_position(s.drop_last(), c);
    }
}

proof fn lemma_position(name: Seq<char>, port: Seq<char>)
    requires
        forall|i: int| 0 <= i < port.len() ==> #[trigger] port[i] != ':',
    ensures
        access::last_position(name + seq![':'] + port, ':') == Some(name.len() as int),
    decreases port.len(),
{
    let whole = name + seq![':'] + port;
    if port.len() > 0 {
        assert(port[port.len() - 1] != ':');
        assert(whole.drop_last() =~= name + seq![':'] + port.drop_last());
        lemma_position(name, port.drop_last());
    }
}

/// Some link of the table has an id and is over.
pub open spec fn is_over(table: LinkTable, id: Seq<char>, now: u64) -> bool {
    exists|i: int|
        0 <= i < table.len() && (#[trigger] table[i]).1.id == id && table[i].1.expires <= now
}

/// Some link of the table has an id and is not over.
pub open spec fn is_going_on(table: LinkTable, id: Seq<char>, now: u64) -> bool {
    exists|i: int|
        0 <= i < table.len() && (#[trigger] table[i]).1.id == id && table[i].1.expires > now
}

proof fn lemma_expired(table: LinkTable, id: Seq<char>, now: u64)
    ensures
        links::expired_ids(table, now).contains(id) ==> is_over(table, id, now),
{
    let gone = |e: (Seq<char>, LinkInfo)| !(e.1.expires > now);
    let kept = table.filter(gone);
    let all = links::expired_ids(table, now);
    if all.contains(id) {
        let k = choose|k: int| 0 <= k < all.len() && all[k] == id;
        assert(all[k] == kept[k].1.id);
        sequences::lemma_filter_element(table, gone, k);
        let i = choose|i: int| 0 <= i < table.len() && #[trigger] table[i] == kept[k];
        assert(table[i].1.id == id);
    }
}

proof fn lemma_going_on(table: LinkTable, k: int, now: u64)
    requires
        0 <= k < links::live(table, now).len(),
    ensures
        is_going_on(table, links::live(table, now)[k].1.id, now),
{
    let on = |e: (Seq<char>, LinkInfo)| e.1.expires > now;
    sequences::lemma_filter_element(table, on, k);
    let i = choose|i: int| 0 <= i < table.len() && #[trigger] table[i] == table.filter(on)[k];
    assert(table[i].1.id == links::live(table, now)[k].1.id);
}

/// The end of a link is told only where the link is over, is the one that is
/// revoked, or gives way to a new one under its key. When all are revoked, all
/// are told.
pub proof fn only_ended_links_are_told(
    table: LinkTable,
    key: Seq<char>,
    link: LinkInfo,
    revoked: Seq<char>,
    id: Seq<char>,
    now: u64,
)
    ensures
        links::told(table, Action::Sweep, now).contains(id) ==> is_over(table, id, now),
        links::told(table, Action::Use(key), now).contains(id) ==> is_over(table, id, now),
        links::told(table, Action::Revoke(revoked), now).contains(id) ==> is_over(table, id, now)
            || (id == revoked && is_going_on(table, id, now)),
        links::told(table, Action::Mint(key, link), now).contains(id) ==> is_over(table, id, now)
            || (text::lookup(links::live(table, now), key) matches Some(old) && old.id == id),
        links::told(table, Action::RevokeAll, now).contains(id) <==> exists|i: int|
            0 <= i < table.len() && (#[trigger] table[i]).1.id == id,
{
    lemma_expired(table, id, now);
    let over = links::expired_ids(table, now);
    let left = links::live(table, now);
    links::lemma_position_of_id(left, revoked);
    if let Some(k) = links::position_of_id(left, revoked) {
        lemma_going_on(table, k, now);
        let all = over + seq![revoked];
        if all.contains(id) {
            let j = choose|j: int| 0 <= j < all.len() && all[j] == id;
            if j < over.len() {
                assert(over[j] == id);
            }
        }
    }
    let ended = links::ended_by_minting(table, key, now);
    if ended.contains(id) {
        let j = choose|j: int| 0 <= j < ended.len() && ended[j] == id;
        if j < over.len() {
            assert(over[j] == id);
        }
    }
    let all = links::ids(table);
    if all.contains(id) {
        let j = choose|j: int| 0 <= j < all.len() && all[j] == id;
        assert(table[j].1.id == id);
    }
    if exists|i: int| 0 <= i < table.len() && (#[trigger] table[i]).1.id == id {
        let i = choose|i: int| 0 <= i < table.len() && (#[trigger] table[i]).1.id == id;
        assert(all[i] == id);
    }
}

/// In what is written down of a path every part of a key's shape is replaced, and
/// every other part stays.
pub proof fn keys_alone_are_redacted(parts: Seq<Seq<char>>, k: int)
    requires
        0 <= k < parts.len(),
        forall|i: int| 0 <= i < parts.len() ==> !(#[trigger] parts[i]).contains('/'),
    ensures
        ({
            let shown = text::split(access::redacted_path(text::join(parts, seq!['/'])), '/');
            &&& shown.len() == parts.len()
            &&& shown[k] == (if access::is_key(parts[k]) {
                "<redacted>"@
            } else {
                parts[k]
            })
        }),
{
    let shown = parts.map_values(|segment: Seq<char>| access::redacted_segment(segment));
    text::split_undoes_join(parts, '/');
    reveal_strlit("<redacted>");
    assert forall|i: int| 0 <= i < shown.len() implies !(#[trigger] shown[i]).contains('/') by {
        assert(!parts[i].contains('/'));
    }
    text::split_undoes_join(shown, '/');
}

/// A host is neither empty nor longer than 255 characters, and a name with any other
/// character in it, or with a dot in front, is none.
pub proof fn other_names_are_no_hosts(name: Seq<char>, i: int)
    requires
        forall|j: int| 0 <= j < name.len() ==> #[trigger] name[j] != ':',
    ensures
        name.len() == 0 || name.len() > 255 ==> !access::is_host(name),
        name.len() > 0 && name[0] == '.' ==> !access::is_host(name),
        0 <= i < name.len() && name[0] != '[' && !is_letter_or_digit(name[i]) && name[i] != '.'
            && name[i] != '-' && name[i] != '_' ==> !access::is_host(name),
{
    lemma_no_position(name, ':');
    let ok = |c: char| access::is_host_char(c);
    if 0 <= i < name.len() && text::all_chars(name, ok) {
        assert(ok(name[i]));
    }
}

/// An address in brackets is a host where it is made of hexadecimal digits, colons
/// and dots, with or without a port.
pub proof fn addresses_in_brackets_are_hosts(address: Seq<char>, port: Seq<char>)
    requires
        0 < address.len() <= 200,
        forall|i: int|
            0 <= i < address.len() ==> is_hex(#[trigger] address[i]) || address[i] == ':'
                || address[i] == '.',
        1 <= port.len() <= 5,
        forall|i: int| 0 <= i < port.len() ==> '0' <= #[trigger] port[i] <= '9',
    ensures
        access::is_host(seq!['['] + address + seq![']']),
        access::is_host(seq!['['] + address + seq![']'] + seq![':'] + port),
{
    let name = seq!['['] + address + seq![']'];
    let whole = name + seq![':'] + port;
    let ok = |c: char| access::is_address_char(c);
    let digit = |c: char| text::is_digit(c);
    assert(name.subrange(1, name.len() - 1) =~= address);
    assert forall|i: int| 0 <= i < address.len() implies ok(#[trigger] address[i]) by {}
    assert forall|i: int| 0 <= i < port.len() implies digit(#[trigger] port[i]) by {}
    assert(access::is_host_name(name));
    lemma_last_position(name, ':');
    match access::last_position(name, ':') {
        Some(i) => {
            let tail = name.skip(i);
            assert(tail[tail.len() - 1] == ']');
            assert(tail.contains(']'));
        },
        None => {},
    }
    assert(access::is_host(name));
    assert forall|i: int| 0 <= i < port.len() implies #[trigger] port[i] != ':' by {}
    lemma_position(name, port);
    let tail = whole.skip(name.len() as int);
    assert(!tail.contains(']')) by {
        if tail.contains(']') {
            let k = choose|k: int| 0 <= k < tail.len() && tail[k] == ']';
            if k > 0 {
                assert(port[k - 1] == ']');
            }
        }
    }
    assert(whole.take(name.len() as int) =~= name);
    assert(whole.skip(name.len() as int + 1) =~= port);
}

proof fn lemma_last_position(s: Seq<char>, c: char)
    ensures
        access::last_position(s, c) matches Some(i) ==> 0 <= i < s.len() && s[i] == c,
    decreases s.len(),
{
    if s.len() > 0 && s.last() != c {
        lemma_last_position(s.drop_last(), c);
    }
}

// ---------------------------------------------------------------------------
// Requests
// ---------------------------------------------------------------------------

/// A key works exactly while it has a key's shape and its link has time left.
/// A request with a key starts the link's half hour again, leaves every other key
/// as it was, and tells of the links that ran out and of no other.
pub proof fn request_with_a_key_uses_it(
    before: DevToolsState,
    after: DevToolsState,
    key: Seq<char>,
    other: Seq<char>,
    now: u64,
    later: u64,
)
    requires
        before.well_formed(),
        session::looked_up(before, after, key, now),
        now + 1_800_000 <= u64::MAX,
        now <= later,
    ensures
        session::key_works(before, key, now) <==> (key.len() == 64 && (forall|i: int|
            0 <= i < key.len() ==> is_hex(#[trigger] key[i])) && opens(
            before.table(),
            key,
            now,
        ) is Some),
        later < now + 1_800_000 ==> (opens(before.table(), key, now) matches Some(link) ==> (opens(
            after.table(),
            key,
            later,
        ) matches Some(found) && found.target_id == link.target_id && found.id == link.id)),
        opens(before.table(), key, now) is None ==> opens(after.table(), key, later) is None,
        other != key ==> opens(after.table(), other, later) == opens(before.table(), other, later),
        after.config == before.config,
        forall|id: Seq<char>|
            after.ended_ids().contains(id) && !before.ended_ids().contains(id) ==> #[trigger]
                is_over(before.table(), id, now),
{
    let table = before.table();
    shapes_are_hexadecimal(key);
    links::key_works_until_it_expires(table, key, now);
    use_starts_the_time_again(table, key, now, other, later);
    assert(after.table() == links::stepped(table, Action::Use(key), now));
    assert forall|id: Seq<char>|
        after.ended_ids().contains(id) && !before.ended_ids().contains(id) implies #[trigger] is_over(
        table,
        id,
        now,
    ) by {
        let told = links::told(table, Action::Sweep, now);
        let k = choose|k: int|
            0 <= k < after.ended_ids().len() && after.ended_ids()[k] == id;
        let n = before.ended_ids().len();
        if k < n {
            assert(before.ended_ids()[k] == id);
        } else {
            assert(told[k - n] == id);
        }
        only_ended_links_are_told(
            table,
            key,
            (LinkInfo { id, target_id: id, target_url: id, expires: 0 }),
            id,
            id,
            now,
        );
    }
}

/// A link that is handed out leads to its page: the key in its path opens the page
/// for half an hour, under the name that the link has, and it says so in seconds.
/// The warning with it is that of what the link gives access to.
pub proof fn handed_out_link_opens_its_page(
    before: DevToolsState,
    after: DevToolsState,
    page: Page,
    link: DevToolsLink,
    warnings: Warnings,
    now: u64,
)
    requires
        before.well_formed(),
        session::link_minted(before, after, page, link, warnings, now),
        now + 1_800_000 <= u64::MAX,
    ensures
        link.expires_in_seconds * 1000 == 1_800_000,
        link.id@.len() == 32,
        before.config.full_devtools ==> link.warning@ == warnings.full@,
        !before.config.full_devtools ==> link.warning@ == warnings.filtered@,
        exists|key: Seq<char>|
            link.path@ == "/devtools/"@ + key && key.len() == 64 && #[trigger] opens_until(
                after.table(),
                key,
                link.id@,
                page,
                now,
                now + 1_800_000,
            ),
{
    let key = choose|key: Seq<char>|
        access::is_key(key) && link.path@ == "/devtools/"@ + key && after.table()
            == #[trigger] links::inserted(
            links::live(before.table(), now),
            key,
            (LinkInfo {
                id: link.id@,
                target_id: page.0,
                target_url: page.1,
                expires: (now + links::LINK_TTL) as u64,
            }),
        ) && after.ended_ids() == before.ended_ids() + links::ended_by_minting(
            before.table(),
            key,
            now,
        );
    let minted = LinkInfo {
        id: link.id@,
        target_id: page.0,
        target_url: page.1,
        expires: (now + links::LINK_TTL) as u64,
    };
    shapes_are_hexadecimal(key);
    shapes_are_hexadecimal(link.id@);
    assert(after.table() == links::stepped(before.table(), Action::Mint(key, minted), now));
    assert forall|later: u64| now <= later < now + 1_800_000 implies (#[trigger] opens(
        after.table(),
        key,
        later,
    ) matches Some(found) && found.id == link.id@ && found.target_id == page.0 && found.target_url
        == page.1) by {
        minted_key_opens_its_page(before.table(), key, minted, now, key, later);
    }
    assert(opens_until(after.table(), key, link.id@, page, now, now + 1_800_000));
}

/// From `now` on until `end` the key opens the page, under the name.
pub open spec fn opens_until(
    table: LinkTable,
    key: Seq<char>,
    id: Seq<char>,
    page: Page,
    now: u64,
    end: int,
) -> bool {
    forall|later: u64|
        now <= later < end ==> (#[trigger] opens(table, key, later) matches Some(found) && found.id
            == id && found.target_id == page.0 && found.target_url == page.1)
}

} // verus!
