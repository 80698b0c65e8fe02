use strom::devtools::access::{
    redact_path, safe_asset_path, valid_host, valid_key, valid_link_id, valid_target_id,
};
use strom::devtools::links::{DevToolsConfig, DevToolsState, LINK_TTL};
use strom::devtools::session::{
    cdp_refusal, check_target_id, client_host, client_is_secure, client_step, ended_step, judge,
    link_warning, list_targets, no_targets, not_answering, proxied_type, proxy_url, screencast_allows,
    session_step, upstream_step, went_away, ClientFrame, Opened, SessionEvent, Step,
    UpstreamFrame, Warnings, SCREENCAST_METHODS,
};
use strom::devtools::targets::{
    block_link_target, check_block, html_sources, link_target, offered_targets, origin,
    page_targets, parse_target_list, resolve_target, same_origin, same_page, HtmlSource,
    PageTarget, Resolution,
};
use strom::flow::{BlockInstance, Flow};
use strom::http::HeaderField;
use strom::json::Json;
use strom::properties::{Properties, PropertyValue};

const NOW: u64 = 1_000_000;

fn config(full_devtools: bool) -> DevToolsConfig {
    DevToolsConfig {
        debug_port: Some(9222),
        tls: false,
        full_devtools,
    }
}

fn state() -> DevToolsState {
    DevToolsState::new(config(false))
}

fn header(value: &str) -> HeaderField {
    HeaderField::Value(value.to_string())
}

fn target(id: &str, url: &str) -> PageTarget {
    PageTarget {
        id: id.to_string(),
        url: url.to_string(),
    }
}

fn source(block_id: &str, url: &str) -> HtmlSource {
    HtmlSource {
        flow_id: 1,
        block_id: block_id.to_string(),
        url: url.to_string(),
        remote_control: true,
    }
}

fn warnings() -> Warnings {
    Warnings {
        full: "everything".to_string(),
        filtered: "the picture".to_string(),
    }
}

#[test]
fn target_ids_are_hex_only() {
    assert!(valid_target_id("4A8CD2F2840F8591A6277A7FFFDAB3A9"));
    assert!(valid_target_id("cf033111-6dfb-4027-909c-a39d9ba6f825"));
    assert!(!valid_target_id(""));
    assert!(!valid_target_id("../../json/version"));
    assert!(!valid_target_id("page/ABC?x=1"));
    assert!(!valid_target_id(&"a".repeat(65)));
}

#[test]
fn asset_paths_stay_inside_the_application() {
    assert!(safe_asset_path("inspector.html"));
    assert!(safe_asset_path("entrypoints/inspector/inspector.js"));
    assert!(safe_asset_path("core/common/common.js"));
    assert!(!safe_asset_path("../json/version"));
    assert!(!safe_asset_path("/etc/passwd"));
    assert!(!safe_asset_path("a/../../b"));
    assert!(!safe_asset_path(""));
}

#[test]
fn forwarded_proto_outranks_our_own_socket() {
    let plain = DevToolsConfig {
        debug_port: Some(9222),
        tls: false,
        full_devtools: false,
    };
    assert!(!client_is_secure(&HeaderField::Absent, &plain));
    assert!(client_is_secure(&header("https"), &plain));
    // A proxy chain lists the client's protocol first.
    assert!(client_is_secure(&header("https, http"), &plain));
    let tls = DevToolsConfig {
        debug_port: Some(9222),
        tls: true,
        full_devtools: false,
    };
    assert!(!client_is_secure(&header("http"), &tls));
}

#[test]
fn a_key_carries_the_target_and_nothing_else_does() {
    let mut s = state();
    let minted = s.mint(
        "4A8CD2F2840F8591A6277A7FFFDAB3A9".to_string(),
        "https://example.com/".to_string(),
        NOW,
    );
    // The key is what a client sees, so it must not spell out the target.
    assert!(valid_key(&minted.key));
    assert!(!minted.key.contains("4A8CD2F2"));
    // The id is a name for the link, not a second copy of the credential.
    assert!(valid_link_id(&minted.id));
    assert_ne!(minted.id, minted.key);
    assert!(!minted.key.contains(&minted.id));
    assert_eq!(
        s.resolve(&minted.key, NOW).as_deref(),
        Some("4A8CD2F2840F8591A6277A7FFFDAB3A9")
    );
}

#[test]
fn a_trailing_slash_does_not_make_it_a_different_page() {
    assert!(same_page("https://example.com", "https://example.com/"));
    assert!(same_page("file:///demo/a.html", "file:///demo/a.html"));
    assert!(!same_page("https://example.com/a", "https://example.com/b"));
}

#[test]
fn keys_are_not_guessable_from_each_other() {
    let mut s = state();
    let a = s.mint("AAAA".to_string(), "https://a.example".to_string(), NOW);
    let b = s.mint("AAAA".to_string(), "https://a.example".to_string(), NOW);
    assert_ne!(a.key, b.key);
    assert_ne!(a.id, b.id);
}

#[test]
fn an_unknown_key_resolves_to_nothing() {
    let mut s = state();
    assert!(s.resolve(&"f".repeat(64), NOW).is_none());
    assert!(!valid_key("short"));
    assert!(!valid_key(&"z".repeat(64)));
}

#[test]
fn a_revoked_key_stops_working() {
    let mut s = state();
    let minted = s.mint("ABCD".to_string(), "https://a.example".to_string(), NOW);
    assert!(s.revoke_by_id(&minted.id, NOW));
    assert!(s.resolve(&minted.key, NOW).is_none());
    // Revoking twice is not an error the caller can act on differently.
    assert!(!s.revoke_by_id(&minted.id, NOW));
}

#[test]
fn an_expired_key_is_gone_even_before_anyone_asks() {
    let mut s = state();
    let minted = s.mint("ABCD".to_string(), "https://a.example".to_string(), NOW);
    s.links[0].1.expires = NOW - 1000;
    assert!(s.resolve(&minted.key, NOW).is_none());
    assert!(s.links.is_empty());
}

#[test]
fn using_a_key_pushes_its_expiry_out() {
    let mut s = state();
    let minted = s.mint("ABCD".to_string(), "https://a.example".to_string(), NOW);
    let first = s.links[0].1.expires;
    assert!(s.resolve(&minted.key, NOW + 5).is_some());
    let second = s.links[0].1.expires;
    assert!(second > first, "a session in use must not expire under it");
}

#[test]
fn revoking_a_link_ends_the_session_already_open_on_it() {
    let mut s = state();
    let minted = s.mint("ABCD".to_string(), "https://a.example".to_string(), NOW);
    let (_target, link) = s.open_session(&minted.key, NOW).expect("session opens");
    assert!(s.revoke_by_id(&minted.id, NOW));
    assert_eq!(s.take_ended(), vec![link]);
}

#[test]
fn revoking_everything_ends_every_open_session() {
    let mut s = state();
    let a = s.mint("A".to_string(), "https://a.example".to_string(), NOW);
    let b = s.mint("B".to_string(), "https://b.example".to_string(), NOW);
    let (_, first) = s.open_session(&a.key, NOW).expect("session opens");
    let (_, second) = s.open_session(&b.key, NOW).expect("session opens");
    assert_eq!(s.revoke_all(NOW), 2);
    let ended = s.take_ended();
    assert!(ended.contains(&first));
    assert!(ended.contains(&second));
    assert!(s.list(NOW).is_empty());
}

#[test]
fn an_expiring_link_ends_the_session_on_it() {
    let mut s = state();
    let minted = s.mint("ABCD".to_string(), "https://a.example".to_string(), NOW);
    let (_, link) = s.open_session(&minted.key, NOW).expect("session opens");
    s.links[0].1.expires = NOW - 1000;
    // Any call that touches the table sweeps it.
    assert!(s.list(NOW).is_empty());
    assert_eq!(s.take_ended(), vec![link]);
}

#[test]
fn a_listing_names_links_without_handing_the_key_back() {
    let mut s = state();
    let minted = s.mint("ABCD".to_string(), "https://a.example/login".to_string(), NOW);
    let listed = s.list(NOW);
    assert_eq!(listed.len(), 1);
    assert_eq!(listed[0].id, minted.id);
    assert_eq!(listed[0].target_url, "https://a.example/login");
    assert!(listed[0].expires_in_seconds > 0);
    // Whatever else a listing carries, it is not the credential.
    let rendered = format!(
        "{} {} {}",
        listed[0].id, listed[0].target_url, listed[0].expires_in_seconds
    );
    assert!(
        !rendered.contains(&minted.key),
        "a listing must never carry the key"
    );
}

#[test]
fn a_key_in_a_path_is_redacted_before_it_is_logged() {
    let key = "a".repeat(64);
    let path = format!("/devtools/{}/ui/core/common/common.js", key);
    let redacted = redact_path(&path);
    assert!(!redacted.contains(&key), "got {}", redacted);
    assert_eq!(redacted, "/devtools/<redacted>/ui/core/common/common.js");

    // The websocket path carries it too.
    assert_eq!(
        redact_path(&format!("/devtools/{}/ws", key)),
        "/devtools/<redacted>/ws"
    );
}

#[test]
fn a_path_without_a_key_is_left_exactly_as_it_was() {
    for path in [
        "/api/flows",
        "/devtools/targets",
        // A link id is not a credential and an operator needs to see it.
        "/api/devtools/links/0123456789abcdef0123456789abcdef",
        "/",
    ] {
        assert_eq!(redact_path(path), path, "path {} was rewritten", path);
    }
}

#[test]
fn only_a_bare_host_and_port_are_accepted() {
    assert!(valid_host("example.com"));
    assert!(valid_host("example.com:8080"));
    assert!(valid_host("192.0.2.10:8080"));
    assert!(valid_host("[2001:db8::1]"));
    assert!(valid_host("[2001:db8::1]:8080"));
    assert!(valid_host("localhost"));
}

#[test]
fn a_host_carrying_query_syntax_is_refused() {
    for host in [
        "example.com&ws=attacker.example/x",
        "example.com?x=1",
        "example.com#frag",
        "example.com/path",
        "user@example.com",
        "example.com:notaport",
        "",
        " ",
    ] {
        assert!(!valid_host(host), "{} should be refused", host);
    }
}

#[test]
fn a_forwarded_host_is_filtered_the_same_way_as_host() {
    let host = header("strom.example:8080");
    assert_eq!(
        client_host(&HeaderField::Absent, &host).as_deref(),
        Some("strom.example:8080")
    );
    // A crafted forwarded host does not win by being crafted - it is dropped, and
    // the Host header is not consulted as a fallback because the client chose to
    // send a forwarded host at all.
    assert!(client_host(&header("evil.example&ws=evil.example/x"), &host).is_none());
}

#[test]
fn an_origin_is_the_scheme_host_and_port() {
    assert_eq!(
        origin("https://example.com/a/b?c").as_deref(),
        Some("https://example.com")
    );
    assert_eq!(
        origin("https://example.com:8443/a").as_deref(),
        Some("https://example.com:8443")
    );
    assert_eq!(
        origin("https://example.com").as_deref(),
        Some("https://example.com")
    );
    assert_eq!(origin("data:text/html,hi"), None);
    assert!(same_origin("https://a.example/x", "https://a.example/y"));
    assert!(!same_origin("https://a.example/x", "https://b.example/x"));
    // Without an origin there is nothing to compare, so nothing matches.
    assert!(!same_origin("data:text/html,a", "data:text/html,a"));
}

#[test]
fn a_page_still_on_its_url_is_matched_exactly() {
    let targets = vec![
        target("AAAA", "https://a.example/"),
        target("BBBB", "https://b.example/"),
    ];
    let sources = vec![
        source("one", "https://a.example"),
        source("two", "https://b.example"),
    ];
    assert_eq!(
        resolve_target(&targets, &sources, &sources[0]),
        Resolution::Target("AAAA".to_string())
    );
    assert_eq!(
        resolve_target(&targets, &sources, &sources[1]),
        Resolution::Target("BBBB".to_string())
    );
}

#[test]
fn a_same_site_redirect_still_resolves() {
    let targets = vec![
        target("AAAA", "https://app.example/login?next=/dashboard"),
        target("BBBB", "https://other.example/"),
    ];
    let sources = vec![
        source("one", "https://app.example/dashboard"),
        source("two", "https://other.example/"),
    ];
    assert_eq!(
        resolve_target(&targets, &sources, &sources[0]),
        Resolution::Target("AAAA".to_string())
    );
}

#[test]
fn a_cross_origin_login_redirect_resolves_when_nothing_else_could_be_it() {
    let targets = vec![target("AAAA", "https://login.idp.example/?redirect=x")];
    let sources = vec![source("one", "https://app.example/dashboard")];
    assert_eq!(
        resolve_target(&targets, &sources, &sources[0]),
        Resolution::Target("AAAA".to_string())
    );
}

#[test]
fn a_cross_origin_redirect_with_a_second_stranded_source_is_refused() {
    let targets = vec![
        target("AAAA", "https://login.idp.example/"),
        target("BBBB", "https://sso.other.example/"),
    ];
    let sources = vec![
        source("one", "https://app.example/dashboard"),
        source("two", "https://intranet.example/home"),
    ];
    assert_eq!(
        resolve_target(&targets, &sources, &sources[0]),
        Resolution::Unknown
    );
    assert_eq!(
        resolve_target(&targets, &sources, &sources[1]),
        Resolution::Unknown
    );
}

#[test]
fn two_blocks_on_one_url_are_refused_rather_than_guessed_between() {
    let targets = vec![
        target("AAAA", "https://a.example/"),
        target("BBBB", "https://a.example/"),
    ];
    let sources = vec![
        source("one", "https://a.example"),
        source("two", "https://a.example"),
    ];
    assert_eq!(
        resolve_target(&targets, &sources, &sources[0]),
        Resolution::Ambiguous
    );
}

#[test]
fn two_blocks_on_one_site_are_refused_once_both_have_navigated() {
    let targets = vec![target("AAAA", "https://app.example/login")];
    let sources = vec![
        source("one", "https://app.example/a"),
        source("two", "https://app.example/b"),
    ];
    assert_eq!(
        resolve_target(&targets, &sources, &sources[0]),
        Resolution::Ambiguous
    );
}

#[test]
fn a_page_another_block_is_sitting_on_exactly_is_not_up_for_grabs() {
    let targets = vec![target("BBBB", "https://app.example/b")];
    let sources = vec![
        source("one", "https://app.example/a"),
        source("two", "https://app.example/b"),
    ];
    assert_eq!(
        resolve_target(&targets, &sources, &sources[0]),
        Resolution::Unknown
    );
    assert_eq!(
        resolve_target(&targets, &sources, &sources[1]),
        Resolution::Target("BBBB".to_string())
    );
}

#[test]
fn a_block_whose_flow_is_not_running_gets_no_page() {
    let targets: Vec<PageTarget> = Vec::new();
    let sources = vec![source("one", "https://a.example")];
    assert_eq!(
        resolve_target(&targets, &sources, &sources[0]),
        Resolution::Unknown
    );
}

fn command(method: &str) -> String {
    format!("{{\"id\":7,\"method\":\"{}\",\"params\":{{}}}}", method)
}

#[test]
fn a_link_carries_the_picture_and_the_input_for_it() {
    for method in SCREENCAST_METHODS {
        assert!(
            screencast_allows(&command(method)).is_ok(),
            "{} is what the page needs to work",
            method
        );
    }
}

#[test]
fn a_link_does_not_carry_the_rest_of_the_protocol() {
    for method in [
        "Runtime.evaluate",
        "Runtime.callFunctionOn",
        "Page.navigate",
        "Page.captureSnapshot",
        "Storage.getCookies",
        "Network.getAllCookies",
        "Network.setRequestInterception",
        "Debugger.enable",
        "Target.createTarget",
        "Browser.getVersion",
        "DOM.getDocument",
        "Emulation.setDeviceMetricsOverride",
    ] {
        let refused = screencast_allows(&command(method))
            .expect_err(&format!("{} must not be forwarded", method));
        assert!(
            refused.contains(method),
            "the refusal has to name what was refused, got {}",
            refused
        );
    }
}

#[test]
fn a_near_miss_is_not_waved_through() {
    for method in [
        "Page.startScreencastEvil",
        "XPage.enable",
        "page.enable",
        "Page.Enable",
        "Input.dispatchMouseEvent.extra",
    ] {
        assert!(
            screencast_allows(&command(method)).is_err(),
            "{} is not on the list",
            method
        );
    }
}

#[test]
fn a_refusal_answers_the_command_that_was_sent() {
    let refused = screencast_allows(&command("Runtime.evaluate")).unwrap_err();
    let parsed: serde_json::Value = serde_json::from_str(&refused).expect("valid JSON");
    // A client matches answers to commands by id; an answer without one is an
    // answer it will wait for forever.
    assert_eq!(parsed["id"], 7);
    assert_eq!(parsed["error"]["code"], -32601);
}

#[test]
fn anything_that_is_not_a_command_is_refused() {
    assert!(screencast_allows("not json at all").is_err());
    assert!(screencast_allows("{}").is_err());
    assert!(screencast_allows(r#"{"id":1}"#).is_err());
    // A response, not a command - the client has no business sending one.
    assert!(screencast_allows(r#"{"id":1,"result":{}}"#).is_err());
}

#[test]
fn the_warning_says_which_of_the_two_modes_this_is() {
    let filtered = config(false);
    let unfiltered = config(true);
    assert_eq!(link_warning(&filtered, &warnings()), "the picture");
    assert_eq!(link_warning(&unfiltered, &warnings()), "everything");
    assert_ne!(
        link_warning(&filtered, &warnings()),
        link_warning(&unfiltered, &warnings())
    );
}

// --- Links ---

#[test]
fn revoking_everything_counts_the_links_with_time_left() {
    let mut s = state();
    let old = s.mint("A".to_string(), "https://a.example".to_string(), NOW);
    let new = s.mint("B".to_string(), "https://b.example".to_string(), NOW + 1000);
    assert_eq!(s.revoke_all(NOW + LINK_TTL), 1);
    assert_eq!(s.take_ended(), vec![old.id, new.id]);
    assert!(s.links.is_empty());
    assert_eq!(s.revoke_all(NOW + LINK_TTL), 0);
}

#[test]
fn a_key_works_as_long_as_it_is_used_in_time() {
    let mut s = state();
    let minted = s.mint("A".to_string(), "https://a.example".to_string(), NOW);
    let other = s.mint("B".to_string(), "https://b.example".to_string(), NOW);
    let mut at = NOW;
    for _ in 0..5 {
        at += LINK_TTL - 1;
        assert_eq!(s.resolve(&minted.key, at).as_deref(), Some("A"));
        assert_eq!(s.links[0].1.expires, at + LINK_TTL);
    }
    assert!(s.resolve(&other.key, at).is_none());
    assert!(s.resolve("never minted", at).is_none());
    assert_eq!(s.links[0].1.expires, at + LINK_TTL);
    assert!(s.resolve(&minted.key, at + LINK_TTL).is_none());
}

#[test]
fn an_ended_link_stops_the_session() {
    assert!(matches!(session_step(&SessionEvent::LinkEnded, false), Step::Stop));
    assert!(matches!(session_step(&SessionEvent::LinkEnded, true), Step::Stop));
    assert!(matches!(session_step(&SessionEvent::ClientGone, true), Step::Stop));
    let text = ClientFrame::Text("not a message".to_string());
    assert!(matches!(
        session_step(&SessionEvent::Client(text), false),
        Step::Answer(_)
    ));
    assert!(matches!(
        session_step(&SessionEvent::Upstream(UpstreamFrame::Text), false),
        Step::Forward
    ));
    assert!(matches!(
        session_step(&SessionEvent::Upstream(UpstreamFrame::Gone), false),
        Step::Stop
    ));

    let mut s = state();
    let a = s.mint("A".to_string(), "https://a.example".to_string(), NOW);
    let b = s.mint("B".to_string(), "https://b.example".to_string(), NOW);
    assert!(s.revoke_by_id(&a.id, NOW));
    let ended = s.take_ended();
    assert!(matches!(ended_step(&ended, &a.id), Step::Stop));
    assert!(matches!(ended_step(&ended, &b.id), Step::Skip));
}

#[test]
fn a_link_lives_exactly_its_time_without_use() {
    let mut s = state();
    let minted = s.mint("ABCD".to_string(), "https://a.example".to_string(), NOW);
    assert!(s.resolve(&minted.key, NOW + LINK_TTL - 1).is_some());

    let mut s = state();
    let minted = s.mint("ABCD".to_string(), "https://a.example".to_string(), NOW);
    assert!(s.resolve(&minted.key, NOW + LINK_TTL).is_none());
}

#[test]
fn using_one_key_leaves_the_time_of_the_others() {
    let mut s = state();
    let a = s.mint("A".to_string(), "https://a.example".to_string(), NOW);
    let b = s.mint("B".to_string(), "https://b.example".to_string(), NOW);
    assert!(s.resolve(&a.key, NOW + 10).is_some());
    let other = s.links.iter().find(|l| l.0 == b.key).expect("still there");
    assert_eq!(other.1.expires, NOW + LINK_TTL);
}

#[test]
fn a_listing_starts_with_what_runs_out_first() {
    let mut s = state();
    let a = s.mint("A".to_string(), "https://a.example".to_string(), NOW);
    let b = s.mint("B".to_string(), "https://b.example".to_string(), NOW + 60_000);
    let ids: Vec<String> = s.list(NOW + 60_000).into_iter().map(|l| l.id).collect();
    assert_eq!(ids, vec![a.id, b.id]);
    let seconds: Vec<u64> = s
        .list(NOW + 60_000)
        .into_iter()
        .map(|l| l.expires_in_seconds)
        .collect();
    assert_eq!(seconds, vec![1740, 1800]);
}

#[test]
fn a_listing_tells_links_apart_within_a_second() {
    let mut s = state();
    let a = s.mint("A".to_string(), "https://a.example".to_string(), NOW);
    let b = s.mint("B".to_string(), "https://b.example".to_string(), NOW + 10);
    // The first one is used again, so it is the one that expires last.
    assert!(s.resolve(&a.key, NOW + 20).is_some());
    let listed = s.list(NOW + 30);
    assert_eq!(listed[0].expires_in_seconds, listed[1].expires_in_seconds);
    assert_eq!(listed[0].id, b.id);
    assert_eq!(listed[1].id, a.id);
}

#[test]
fn a_minted_link_says_what_it_hands_over() {
    let mut s = state();
    let link = s.minted(
        "ABCD".to_string(),
        "https://a.example".to_string(),
        &warnings(),
        NOW,
    );
    assert_eq!(link.expires_in_seconds, 1800);
    assert_eq!(link.warning, "the picture");
    let key = link.path.strip_prefix("/devtools/").expect("a path");
    assert!(valid_key(key));
    assert!(valid_link_id(&link.id));
}

#[test]
fn a_name_that_is_none_revokes_nothing() {
    let mut s = state();
    let minted = s.mint("ABCD".to_string(), "https://a.example".to_string(), NOW);
    let refused = s.revoke_link("not a name", NOW).unwrap_err();
    assert_eq!(refused.status, 404);
    assert!(s.revoke_link(&minted.id, NOW).is_ok());
    assert_eq!(s.revoke_link(&minted.id, NOW).unwrap_err().status, 404);
}

// --- Opening ---

fn opened(s: &mut DevToolsState, key: &str) -> Opened {
    s.open_link(
        key,
        &HeaderField::Absent,
        &header("strom.example:8080"),
        &HeaderField::Absent,
        NOW,
    )
}

#[test]
fn a_link_opens_on_the_remote_control_page() {
    let mut s = state();
    let minted = s.mint("ABCD".to_string(), "https://a.example".to_string(), NOW);
    assert!(matches!(
        opened(&mut s, &minted.key),
        Opened::RemoteControlPage
    ));
    assert!(matches!(opened(&mut s, "short"), Opened::Refused(r) if r.status == 404));
}

#[test]
fn full_devtools_open_in_the_application() {
    let mut s = DevToolsState::new(config(true));
    let minted = s.mint("ABCD".to_string(), "https://a.example".to_string(), NOW);
    let key = minted.key;
    // The colon of the port is escaped in the query.
    let expected = format!(
        "/devtools/{}/ui/inspector.html?ws=strom.example%3A8080/devtools/{}/ws",
        key, key
    );
    match opened(&mut s, &key) {
        Opened::Redirect(path) => assert_eq!(path, expected),
        _ => panic!("the application should open"),
    }
    let secure = s.open_link(
        &key,
        &header("[2001:db8::1]"),
        &HeaderField::Absent,
        &header("https"),
        NOW,
    );
    match secure {
        Opened::Redirect(path) => assert!(path.contains("?wss=%5B2001%3Adb8%3A%3A1%5D/devtools/")),
        _ => panic!("the application should open"),
    }
    let nowhere = s.open_link(
        &key,
        &HeaderField::Absent,
        &HeaderField::Unreadable,
        &HeaderField::Absent,
        NOW,
    );
    assert!(matches!(nowhere, Opened::Refused(r) if r.status == 400));
}

#[test]
fn nothing_opens_without_a_debug_port() {
    let mut s = DevToolsState::new(DevToolsConfig {
        debug_port: None,
        tls: false,
        full_devtools: true,
    });
    assert!(matches!(opened(&mut s, &"a".repeat(64)), Opened::Refused(r) if r.status == 404));
    assert_eq!(
        s.proxy_cdp(&"a".repeat(64), NOW).err().map(|r| r.status),
        Some(404)
    );
    assert_eq!(
        s.proxy_ui(&"a".repeat(64), "inspector.html", &None, NOW)
            .err()
            .map(|r| r.status),
        Some(404)
    );
    let config = s.config;
    assert!(check_target_id(&config, "ABCD").is_some());
    let list = no_targets(&config, &warnings());
    assert!(!list.enabled);
    assert!(list.warning.is_none());
}

#[test]
fn a_session_goes_to_the_page_of_its_link() {
    let mut s = state();
    let minted = s.mint("ABCD".to_string(), "https://a.example".to_string(), NOW);
    let plan = s.proxy_cdp(&minted.key, NOW).ok().expect("session opens");
    assert_eq!(plan.upstream, "ws://127.0.0.1:9222/devtools/page/ABCD");
    assert_eq!(plan.target_id, "ABCD");
    assert_eq!(plan.link_id, minted.id);
}

#[test]
fn the_application_is_served_from_its_own_directory() {
    let mut s = DevToolsState::new(config(true));
    let minted = s.mint("ABCD".to_string(), "https://a.example".to_string(), NOW);
    let url = s
        .proxy_ui(&minted.key, "core/common.js", &Some("v=1".to_string()), NOW)
        .ok()
        .expect("a file of the application");
    assert_eq!(url, "http://127.0.0.1:9222/devtools/core/common.js?v=1");
    assert_eq!(
        s.proxy_ui(&minted.key, "../json/version", &None, NOW)
            .err()
            .map(|r| r.status),
        Some(400)
    );
    let mut filtered = state();
    let minted = filtered.mint("ABCD".to_string(), "https://a.example".to_string(), NOW);
    assert_eq!(
        filtered
            .proxy_ui(&minted.key, "core/common.js", &None, NOW)
            .err()
            .map(|r| r.status),
        Some(404)
    );
    assert_eq!(
        proxy_url(9222, "json", &Some(String::new())),
        "http://127.0.0.1:9222/json"
    );
}

// --- The filter ---

#[test]
fn a_refusal_without_an_id_answers_null() {
    assert_eq!(
        cdp_refusal(None, "no"),
        r#"{"error":{"code":-32601,"message":"no"},"id":null}"#
    );
    assert_eq!(
        cdp_refusal(Some(-3), "no"),
        r#"{"error":{"code":-32601,"message":"no"},"id":-3}"#
    );
}

#[test]
fn a_command_is_judged_by_its_method_alone() {
    let allowed = Json::Object(vec![
        ("id".to_string(), Json::PosInt(7)),
        ("method".to_string(), Json::Text("Page.enable".to_string())),
    ]);
    assert!(judge(&Some(allowed)).is_none());
    let other = Json::Object(vec![
        ("id".to_string(), Json::PosInt(7)),
        ("method".to_string(), Json::Text("Page.navigate".to_string())),
    ]);
    let refused = judge(&Some(other)).expect("refused");
    assert_eq!(refused.id, Some(7));
    assert!(refused.message.contains("Page.navigate"));
    assert_eq!(judge(&None).expect("refused").id, None);
}

#[test]
fn frames_are_forwarded_dropped_or_end_the_session() {
    let bad = ClientFrame::Text("not json at all".to_string());
    assert!(matches!(client_step(&bad, false), Step::Answer(_)));
    assert!(matches!(client_step(&bad, true), Step::Forward));
    let good = ClientFrame::Text(command("Page.enable"));
    assert!(matches!(client_step(&good, false), Step::Forward));
    assert!(matches!(client_step(&ClientFrame::Binary, false), Step::Skip));
    assert!(matches!(client_step(&ClientFrame::Binary, true), Step::Forward));
    assert!(matches!(client_step(&ClientFrame::Ping, true), Step::Skip));
    assert!(matches!(client_step(&ClientFrame::Close, true), Step::Stop));
    assert!(matches!(upstream_step(UpstreamFrame::Text), Step::Forward));
    assert!(matches!(upstream_step(UpstreamFrame::Pong), Step::Skip));
    assert!(matches!(upstream_step(UpstreamFrame::Gone), Step::Stop));
}

// --- Pages ---

fn html_block(id: &str, url: &str, remote: bool) -> BlockInstance {
    let mut properties = Properties::new();
    properties.add("url", PropertyValue::String(url.to_string()));
    properties.add("remote_control", PropertyValue::Bool(remote));
    BlockInstance {
        id: id.to_string(),
        block_definition_id: "builtin.html_input".to_string(),
        properties,
        whep_endpoint_id: None,
    }
}

fn one_flow(blocks: Vec<BlockInstance>) -> Flow {
    Flow {
        id: 7,
        blocks,
        links: Vec::new(),
    }
}

const LIST: &str = r#"[
    {"id":"AAAA","type":"page","url":"https://a.example/","title":"A"},
    {"id":"BBBB","type":"worker","url":"https://b.example/"},
    {"id":"../x","type":"page","url":"https://c.example/"},
    {"type":"page","url":"https://d.example/"}
]"#;

#[test]
fn only_pages_with_an_id_are_taken_from_the_list() {
    let entries = parse_target_list(LIST).expect("a list");
    let pages = page_targets(&entries);
    assert_eq!(pages[0].id, "AAAA");
    assert_eq!(pages[0].url, "https://a.example/");
    assert!(pages.iter().all(|p| p.id != "BBBB"));
    let offered = offered_targets(&entries);
    assert!(offered.iter().any(|t| t.id == "AAAA"));
    assert!(offered.iter().all(|t| t.id != "BBBB" && t.id != "../x"));
    assert!(parse_target_list("{}").is_none());
    assert!(parse_target_list("garbage").is_none());
}

#[test]
fn the_list_of_pages_comes_with_the_warning() {
    let list = list_targets(&config(true), &warnings(), LIST)
        .ok()
        .expect("a list");
    assert!(list.enabled);
    assert_eq!(list.warning.as_deref(), Some("everything"));
    assert!(list.targets.iter().any(|t| t.id == "AAAA"));
    assert_eq!(
        list_targets(&config(true), &warnings(), "garbage")
            .err()
            .map(|r| r.status),
        Some(502)
    );
    assert_eq!(
        check_target_id(&config(true), "../x").map(|r| r.status),
        Some(400)
    );
    assert!(check_target_id(&config(true), "AAAA").is_none());
}

#[test]
fn sources_are_the_html_blocks_of_every_flow() {
    let other = BlockInstance {
        id: "mixer".to_string(),
        block_definition_id: "builtin.mixer".to_string(),
        properties: Properties::new(),
        whep_endpoint_id: None,
    };
    let flows = vec![one_flow(vec![
        html_block("one", "https://a.example", true),
        other,
        html_block("two", "https://b.example", false),
    ])];
    let sources = html_sources(&flows);
    assert_eq!(sources.len(), 2);
    assert_eq!(sources[0].block_id, "one");
    assert!(sources[0].remote_control);
    assert_eq!(sources[1].url, "https://b.example");
    assert!(!sources[1].remote_control);
    assert_eq!(sources[1].flow_id, 7);
}

#[test]
fn a_link_is_minted_only_for_a_page_that_allows_it() {
    let flows = vec![one_flow(vec![
        html_block("one", "https://a.example", true),
        html_block("two", "https://b.example", false),
    ])];
    let sources = html_sources(&flows);
    let targets = Some(vec![
        target("AAAA", "https://a.example/"),
        target("BBBB", "https://b.example/"),
    ]);
    assert_eq!(
        link_target(&targets, &sources, "AAAA").ok().map(|p| p.url),
        Some("https://a.example/".to_string())
    );
    let status = |id: &str| link_target(&targets, &sources, id).err().map(|r| r.status);
    assert_eq!(status("BBBB"), Some(403));
    assert_eq!(status("CCCC"), Some(404));
    assert_eq!(
        link_target(&None, &sources, "AAAA").err().map(|r| r.status),
        Some(404)
    );
}

#[test]
fn a_block_is_checked_before_its_page_is_looked_for() {
    assert_eq!(check_block(&None, "one").map(|r| r.status), Some(404));
    let other = BlockInstance {
        id: "mixer".to_string(),
        block_definition_id: "builtin.mixer".to_string(),
        properties: Properties::new(),
        whep_endpoint_id: None,
    };
    let flow = Some(one_flow(vec![
        html_block("one", "https://a.example", true),
        html_block("two", "https://b.example", false),
        other,
    ]));
    assert!(check_block(&flow, "one").is_none());
    assert_eq!(check_block(&flow, "three").map(|r| r.status), Some(404));
    assert!(check_block(&flow, "two").is_some());
    assert!(check_block(&flow, "mixer").is_some());
}

#[test]
fn a_block_link_goes_to_the_page_of_the_block() {
    let flows = vec![one_flow(vec![html_block("one", "https://a.example", true)])];
    let sources = html_sources(&flows);
    let targets = Some(vec![target("AAAA", "https://a.example/")]);
    let found = block_link_target(&targets, &sources, 7, "one");
    assert!(matches!(found, Ok(p) if p.id == "AAAA" && p.url == "https://a.example/"));
    let status = |targets: &Option<Vec<PageTarget>>, flow: u128| {
        block_link_target(targets, &sources, flow, "one")
            .err()
            .map(|r| r.status)
    };
    assert_eq!(status(&Some(Vec::new()), 7), Some(404));
    assert_eq!(status(&None, 7), Some(404));
    assert_eq!(status(&targets, 8), Some(404));
    let twice = Some(vec![
        target("AAAA", "https://a.example/"),
        target("BBBB", "https://a.example/"),
    ]);
    assert_eq!(status(&twice, 7), Some(409));
}

#[test]
fn a_link_for_a_page_opens_that_page() {
    let flows = vec![one_flow(vec![
        html_block("one", "https://a.example", true),
        html_block("two", "https://b.example", false),
    ])];
    let sources = html_sources(&flows);
    let pages = Some(vec![
        target("AAAA", "https://a.example/"),
        target("BBBB", "https://b.example/"),
    ]);
    let mut s = state();
    let link = s
        .create_link("AAAA", &pages, &sources, &warnings(), NOW)
        .ok()
        .expect("a link");
    assert!(valid_link_id(&link.id));
    assert_eq!(link.warning, "the picture");
    assert_eq!(link.expires_in_seconds, LINK_TTL / 1000);
    let key = link.path.strip_prefix("/devtools/").expect("a key");
    assert_eq!(s.resolve(key, NOW).as_deref(), Some("AAAA"));
    let mut status = |id: &str| {
        s.create_link(id, &pages, &sources, &warnings(), NOW)
            .err()
            .map(|r| r.status)
    };
    assert_eq!(status("../x"), Some(400));
    assert_eq!(status("BBBB"), Some(403));
    assert_eq!(status("CCCC"), Some(404));
    let mut off = DevToolsState::new(DevToolsConfig {
        debug_port: None,
        tls: false,
        full_devtools: false,
    });
    assert_eq!(
        off.create_link("AAAA", &pages, &sources, &warnings(), NOW)
            .err()
            .map(|r| r.status),
        Some(404)
    );
    // A refused request leaves no link behind.
    assert_eq!(s.list(NOW).len(), 1);
}

#[test]
fn a_link_for_a_block_opens_its_page() {
    let blocks = || {
        vec![
            html_block("one", "https://a.example", true),
            html_block("two", "https://b.example", false),
        ]
    };
    let sources = html_sources(&vec![one_flow(blocks())]);
    let flow = Some(one_flow(blocks()));
    let pages = Some(vec![
        target("AAAA", "https://a.example/"),
        target("BBBB", "https://b.example/"),
    ]);
    let mut s = state();
    let link = s
        .create_block_link(&flow, 7, "one", &pages, &sources, &warnings(), NOW)
        .ok()
        .expect("a link");
    let key = link.path.strip_prefix("/devtools/").expect("a key");
    assert_eq!(s.resolve(key, NOW).as_deref(), Some("AAAA"));
    let mut status = |flow: &Option<Flow>, block: &str, pages: &Option<Vec<PageTarget>>| {
        s.create_block_link(flow, 7, block, pages, &sources, &warnings(), NOW)
            .err()
            .map(|r| r.status)
    };
    assert_eq!(status(&None, "one", &pages), Some(404));
    assert_eq!(status(&flow, "three", &pages), Some(404));
    assert_eq!(status(&flow, "two", &pages), Some(403));
    assert_eq!(status(&flow, "one", &None), Some(404));
    let twice = Some(vec![
        target("AAAA", "https://a.example/"),
        target("BBBB", "https://a.example/"),
    ]);
    assert_eq!(status(&flow, "one", &twice), Some(409));
    let mut off = DevToolsState::new(DevToolsConfig {
        debug_port: None,
        tls: false,
        full_devtools: false,
    });
    let refused = off.create_block_link(&flow, 7, "one", &pages, &sources, &warnings(), NOW);
    assert_eq!(refused.err().map(|r| r.status), Some(404));
}

#[test]
fn a_page_and_its_block_are_the_same_link_target() {
    let flows = vec![one_flow(vec![html_block("one", "https://a.example", true)])];
    let sources = html_sources(&flows);
    let pages = Some(vec![target("AAAA", "https://a.example/")]);
    let by_block = block_link_target(&pages, &sources, 7, "one")
        .ok()
        .expect("a page");
    let by_page = link_target(&pages, &sources, &by_block.id)
        .ok()
        .expect("a page");
    assert_eq!(by_block.id, by_page.id);
    assert_eq!(by_block.url, by_page.url);
}

#[test]
fn two_strays_never_share_a_page() {
    // Two sources of one origin have moved on, and each is left one page.
    let sources = vec![
        source("one", "https://a.example/start"),
        source("two", "https://b.example/start"),
    ];
    let pages = vec![
        target("AAAA", "https://a.example/later"),
        target("BBBB", "https://b.example/later"),
    ];
    let one = resolve_target(&pages, &sources, &sources[0]);
    let two = resolve_target(&pages, &sources, &sources[1]);
    assert_eq!(one, Resolution::Target("AAAA".to_string()));
    assert_eq!(two, Resolution::Target("BBBB".to_string()));
    assert_ne!(one, two);
}

#[test]
fn what_chromium_fails_to_answer_is_a_bad_gateway() {
    assert_eq!(not_answering().status, 502);
    assert_eq!(
        not_answering().body,
        "DevTools endpoint is not answering - is a flow with an HTML source running?"
    );
    assert_eq!(went_away().status, 502);
    assert_eq!(went_away().body, "DevTools endpoint went away");
    assert_eq!(proxied_type(&header("text/css")), "text/css");
    assert_eq!(
        proxied_type(&HeaderField::Absent),
        "application/octet-stream"
    );
    assert_eq!(
        proxied_type(&HeaderField::Unreadable),
        "application/octet-stream"
    );
}
