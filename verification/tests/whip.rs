use strom::http::HeaderField;
use strom::json::{render, Json};
use strom::sdp::{
    add_goog_remb, fix_video_bitrate_hints, remove_standalone_x_google, strip_redundancy_codecs,
};
use strom::whip::{
    cors_headers, endpoint_not_found, endpoint_url, failure_reply, forwards_header,
    forwards_lowercase_header, list_whip_endpoints, prepare_offer, resource_answer, resource_url,
    rewrite_location, whip_answer, whip_options, whip_post, whip_resource_delete,
    whip_resource_options, whip_resource_patch, Content, ProxyFailure,
};

// --- strip_redundancy_codecs tests ---

#[test]
fn strip_redundancy_codecs_removes_red_rtx_ulpfec() {
    let sdp = "\
v=0\r\n\
o=- 0 0 IN IP4 127.0.0.1\r\n\
s=-\r\n\
m=audio 9 UDP/TLS/RTP/SAVPF 111 63\r\n\
a=rtpmap:111 opus/48000/2\r\n\
a=rtpmap:63 red/48000/2\r\n\
a=fmtp:63 111/111\r\n\
m=video 9 UDP/TLS/RTP/SAVPF 96 97 98 99\r\n\
a=rtpmap:96 H264/90000\r\n\
a=fmtp:96 level-asymmetry-allowed=1;packetization-mode=1;profile-level-id=42001f\r\n\
a=rtpmap:97 rtx/90000\r\n\
a=fmtp:97 apt=96\r\n\
a=rtpmap:98 red/90000\r\n\
a=rtpmap:99 ulpfec/90000\r\n\
a=rtcp-fb:97 nack\r\n";

    let result = strip_redundancy_codecs(sdp);

    // Primary codecs should remain
    assert!(result.contains("a=rtpmap:111 opus/48000/2"));
    assert!(result.contains("a=rtpmap:96 H264/90000"));
    assert!(result.contains("a=fmtp:96 level-asymmetry-allowed"));

    // Redundancy codecs should be removed
    assert!(!result.contains("a=rtpmap:63 red/"));
    assert!(!result.contains("a=fmtp:63"));
    assert!(!result.contains("a=rtpmap:97 rtx/"));
    assert!(!result.contains("a=fmtp:97"));
    assert!(!result.contains("a=rtpmap:98 red/"));
    assert!(!result.contains("a=rtpmap:99 ulpfec/"));
    assert!(!result.contains("a=rtcp-fb:97"));

    // m= lines should have PTs removed
    assert!(result.contains("m=audio 9 UDP/TLS/RTP/SAVPF 111"));
    assert!(!result.contains("m=audio 9 UDP/TLS/RTP/SAVPF 111 63"));
    assert!(result.contains("m=video 9 UDP/TLS/RTP/SAVPF 96"));
    assert!(!result.contains(" 97"));
}

#[test]
fn strip_redundancy_codecs_noop_without_redundancy() {
    let sdp = "\
v=0\r\n\
m=video 9 UDP/TLS/RTP/SAVPF 96\r\n\
a=rtpmap:96 H264/90000\r\n\
a=fmtp:96 level-asymmetry-allowed=1\r\n";

    let result = strip_redundancy_codecs(sdp);
    assert_eq!(result, sdp);
}

#[test]
fn strip_redundancy_codecs_preserves_primary_codecs() {
    let sdp = "\
m=audio 9 UDP/TLS/RTP/SAVPF 111\r\n\
a=rtpmap:111 opus/48000/2\r\n\
a=fmtp:111 minptime=10;useinbandfec=1\r\n\
a=rtcp-fb:111 transport-cc\r\n\
m=video 9 UDP/TLS/RTP/SAVPF 96\r\n\
a=rtpmap:96 H264/90000\r\n\
a=rtcp-fb:96 nack\r\n\
a=rtcp-fb:96 transport-cc\r\n";

    let result = strip_redundancy_codecs(sdp);
    assert_eq!(result, sdp);
}

// --- add_goog_remb tests ---

#[test]
fn add_goog_remb_inserts_after_transport_cc() {
    let sdp = "\
m=audio 9 UDP/TLS/RTP/SAVPF 111\r\n\
a=rtpmap:111 opus/48000/2\r\n\
m=video 9 UDP/TLS/RTP/SAVPF 96\r\n\
a=rtpmap:96 H264/90000\r\n\
a=rtcp-fb:96 transport-cc\r\n\
a=fmtp:96 level-asymmetry-allowed=1\r\n";

    let result = add_goog_remb(sdp);

    assert!(result.contains("a=rtcp-fb:96 goog-remb\r\n"));
    // Should be right after transport-cc line
    let tc_pos = result.find("a=rtcp-fb:96 transport-cc").unwrap();
    let remb_pos = result.find("a=rtcp-fb:96 goog-remb").unwrap();
    let fmtp_pos = result.find("a=fmtp:96").unwrap();
    assert!(remb_pos > tc_pos);
    assert!(remb_pos < fmtp_pos);
}

#[test]
fn add_goog_remb_noop_without_video() {
    let sdp = "\
m=audio 9 UDP/TLS/RTP/SAVPF 111\r\n\
a=rtpmap:111 opus/48000/2\r\n\
a=rtcp-fb:111 transport-cc\r\n";

    let result = add_goog_remb(sdp);
    assert_eq!(result, sdp);
}

#[test]
fn add_goog_remb_noop_if_already_present() {
    let sdp = "\
m=video 9 UDP/TLS/RTP/SAVPF 96\r\n\
a=rtpmap:96 H264/90000\r\n\
a=rtcp-fb:96 transport-cc\r\n\
a=rtcp-fb:96 goog-remb\r\n\
a=fmtp:96 level-asymmetry-allowed=1\r\n";

    let result = add_goog_remb(sdp);
    assert_eq!(result, sdp);
}

#[test]
fn add_goog_remb_preserves_crlf() {
    let sdp = "m=video 9 UDP/TLS/RTP/SAVPF 96\r\n\
a=rtcp-fb:96 transport-cc\r\n\
a=fmtp:96 foo\r\n";

    let result = add_goog_remb(sdp);
    // Every line should end with \r\n
    for line in result.split('\n') {
        if !line.is_empty() {
            assert!(line.ends_with('\r'), "Line missing \\r: {:?}", line);
        }
    }
}

// --- fix_video_bitrate_hints tests ---

#[test]
fn fix_video_bitrate_hints_moves_standalone_to_fmtp() {
    let sdp = "\
m=video 9 UDP/TLS/RTP/SAVPF 96\r\n\
a=rtpmap:96 H264/90000\r\n\
a=fmtp:96 level-asymmetry-allowed=1\r\n\
a=x-google-min-bitrate:1500\r\n\
a=x-google-start-bitrate:1500\r\n\
a=x-google-max-bitrate:3000\r\n";

    let result = fix_video_bitrate_hints(sdp);

    // Standalone lines should be removed
    assert!(!result.contains("a=x-google-min-bitrate:"));
    assert!(!result.contains("a=x-google-start-bitrate:"));
    assert!(!result.contains("a=x-google-max-bitrate:"));

    // Values should be in the fmtp line
    assert!(result.contains("x-google-min-bitrate=1500"));
    assert!(result.contains("x-google-start-bitrate=1500"));
    assert!(result.contains("x-google-max-bitrate=3000"));
    // Original fmtp content preserved
    assert!(result.contains("level-asymmetry-allowed=1"));
}

#[test]
fn fix_video_bitrate_hints_applies_defaults_without_standalone() {
    let sdp = "\
m=video 9 UDP/TLS/RTP/SAVPF 96\r\n\
a=rtpmap:96 H264/90000\r\n\
a=fmtp:96 level-asymmetry-allowed=1\r\n";

    let result = fix_video_bitrate_hints(sdp);

    assert!(result.contains("x-google-min-bitrate=2000"));
    assert!(result.contains("x-google-start-bitrate=2000"));
    assert!(result.contains("x-google-max-bitrate=4000"));
}

#[test]
fn fix_video_bitrate_hints_noop_if_already_in_fmtp() {
    let sdp = "\
m=video 9 UDP/TLS/RTP/SAVPF 96\r\n\
a=rtpmap:96 H264/90000\r\n\
a=fmtp:96 level-asymmetry-allowed=1;x-google-start-bitrate=2000;x-google-min-bitrate=2000;x-google-max-bitrate=4000\r\n";

    let result = fix_video_bitrate_hints(sdp);
    assert_eq!(result, sdp);
}

#[test]
fn fix_video_bitrate_hints_removes_standalone_when_fmtp_has_hints() {
    let sdp = "\
m=video 9 UDP/TLS/RTP/SAVPF 96\r\n\
a=fmtp:96 level-asymmetry-allowed=1;x-google-start-bitrate=2000\r\n\
a=x-google-min-bitrate:1000\r\n";

    let result = fix_video_bitrate_hints(sdp);

    // Standalone line removed
    assert!(!result.contains("a=x-google-min-bitrate:"));
    // Existing fmtp hints preserved
    assert!(result.contains("x-google-start-bitrate=2000"));
}

#[test]
fn fix_video_bitrate_hints_noop_without_video() {
    let sdp = "\
m=audio 9 UDP/TLS/RTP/SAVPF 111\r\n\
a=rtpmap:111 opus/48000/2\r\n\
a=fmtp:111 minptime=10\r\n";

    let result = fix_video_bitrate_hints(sdp);
    assert_eq!(result, sdp);
}

// --- laws and edges ---

#[test]
fn feedback_of_another_section_is_not_the_videos() {
    let sdp = "m=video 9 UDP/TLS/RTP/SAVPF 96\r\na=rtpmap:96 H264/90000\r\nm=audio 9 UDP/TLS/RTP/SAVPF 111\r\na=rtcp-fb:111 transport-cc\r\n";
    assert_eq!(add_goog_remb(sdp), sdp);
    let sdp = "m=audio 9 x 111\na=rtcp-fb:111 transport-cc\nm=video 9 x 96\na=rtcp-fb:96 transport-cc\nm=audio 9 x 112\n";
    assert_eq!(
        add_goog_remb(sdp),
        "m=audio 9 x 111\na=rtcp-fb:111 transport-cc\nm=video 9 x 96\na=rtcp-fb:96 transport-cc\na=rtcp-fb:96 goog-remb\nm=audio 9 x 112\n"
    );
    // Without a line feed behind the feedback nothing is added.
    let sdp = "m=video 9 x 96\na=rtcp-fb:96 transport-cc";
    assert_eq!(add_goog_remb(sdp), sdp);
}

#[test]
fn hints_stay_out_of_another_sections_parameters() {
    let sdp = "m=video 9 UDP/TLS/RTP/SAVPF 96\r\na=rtpmap:96 VP8/90000\r\nm=audio 9 UDP/TLS/RTP/SAVPF 111\r\na=fmtp:111 minptime=10\r\n";
    assert_eq!(fix_video_bitrate_hints(sdp), sdp);
    let sdp = "m=video 9 x 96\r\na=fmtp:96 a=1\r\na=x-google-max-bitrate: 7\r\nm=audio 9 x 111\r\na=fmtp:111 minptime=10\r\n";
    let once = fix_video_bitrate_hints(sdp);
    assert_eq!(
        once,
        "m=video 9 x 96\r\na=fmtp:96 a=1;x-google-min-bitrate=2000;x-google-start-bitrate=2000;x-google-max-bitrate=7\r\nm=audio 9 x 111\r\na=fmtp:111 minptime=10\r\n"
    );
    assert_eq!(fix_video_bitrate_hints(&once), once);
}

#[test]
fn a_later_video_section_is_searched_too() {
    // Right behind the first, and behind another section.
    let sdp = "m=video 9 x 96\r\na=rtpmap:96 VP8/90000\r\nm=video 9 x 97\r\na=rtcp-fb:97 transport-cc\r\na=fmtp:97 a=1\r\n";
    assert_eq!(
        add_goog_remb(sdp),
        "m=video 9 x 96\r\na=rtpmap:96 VP8/90000\r\nm=video 9 x 97\r\na=rtcp-fb:97 transport-cc\r\na=rtcp-fb:97 goog-remb\r\na=fmtp:97 a=1\r\n"
    );
    let fixed = fix_video_bitrate_hints(sdp);
    assert!(fixed.ends_with("a=fmtp:97 a=1;x-google-min-bitrate=2000;x-google-start-bitrate=2000;x-google-max-bitrate=4000\r\n"));
    assert_eq!(fix_video_bitrate_hints(&fixed), fixed);
    let sdp = "m=video 9 x 96\nm=audio 9 x 111\na=rtcp-fb:111 transport-cc\na=fmtp:111 b=2\nm=video 9 x 97\na=rtcp-fb:97 transport-cc\na=fmtp:97 a=1\n";
    let added = add_goog_remb(sdp);
    assert_eq!(
        added,
        "m=video 9 x 96\nm=audio 9 x 111\na=rtcp-fb:111 transport-cc\na=fmtp:111 b=2\nm=video 9 x 97\na=rtcp-fb:97 transport-cc\na=rtcp-fb:97 goog-remb\na=fmtp:97 a=1\n"
    );
    assert_eq!(add_goog_remb(&added), added);
    let fixed = fix_video_bitrate_hints(sdp);
    assert!(fixed.contains("a=fmtp:111 b=2\n"));
    assert!(fixed.contains("a=fmtp:97 a=1;x-google-min-bitrate=2000;"));
}

#[test]
fn stripping_twice_changes_nothing_more() {
    let offer = "m=video 9 UDP/TLS/RTP/SAVPF 96 97\r\na=rtpmap:96 VP8/90000\r\na=rtpmap:97 RTX/90000\r\n";
    let once = strip_redundancy_codecs(offer);
    assert_eq!(
        once,
        "m=video 9 UDP/TLS/RTP/SAVPF 96\r\na=rtpmap:96 VP8/90000"
    );
    assert_eq!(strip_redundancy_codecs(&once), once);
}

#[test]
fn a_second_video_section_gets_no_second_feedback_line() {
    let answer = "m=video 9 UDP/TLS/RTP/SAVPF 96\r\na=rtcp-fb:96 transport-cc\r\n";
    let once = add_goog_remb(answer);
    assert_eq!(
        once,
        "m=video 9 UDP/TLS/RTP/SAVPF 96\r\na=rtcp-fb:96 transport-cc\r\na=rtcp-fb:96 goog-remb\r\n"
    );
    assert_eq!(add_goog_remb(&once), once);
}

#[test]
fn no_standalone_hint_survives() {
    let answer = "m=video 9 X 96\r\na=x-google-max-bitrate:3000\r\na=fmtp:96 a=1\r\n";
    let fixed = fix_video_bitrate_hints(answer);
    assert!(!fixed.contains("a=x-google-"));
    assert!(fixed.contains("x-google-max-bitrate=3000"));
    assert_eq!(
        remove_standalone_x_google("a=x-google-min-bitrate:1\r\na=b\r\n"),
        "a=b\r\n"
    );
    assert_eq!(remove_standalone_x_google("a=b\r\n"), "a=b\r\n");
}

// --- the proxy ---

fn text(s: &str) -> Content {
    Content::Text(s.to_string())
}

fn shown(content: &Content) -> String {
    match content {
        Content::Text(s) => s.clone(),
        Content::Binary(v) => format!("{:?}", v),
    }
}

const OFFER: &str = "m=video 9 UDP/TLS/RTP/SAVPF 96 97\r\na=rtpmap:96 VP8/90000\r\na=rtpmap:97 rtx/90000\r\n";

#[test]
fn an_offer_is_sent_to_the_port_of_its_endpoint() {
    let request = whip_post(Some(5000), &HeaderField::Absent, Some(text("Bearer x")), text(OFFER))
        .ok()
        .expect("sent on");
    assert_eq!(request.url, "http://127.0.0.1:5000/whip/endpoint");
    assert_eq!(request.content_type, "application/sdp");
    assert_eq!(request.authorization.map(|c| shown(&c)).as_deref(), Some("Bearer x"));
    assert_eq!(
        shown(&request.body),
        "m=video 9 UDP/TLS/RTP/SAVPF 96\r\na=rtpmap:96 VP8/90000"
    );
    assert_eq!(endpoint_url(1), "http://127.0.0.1:1/whip/endpoint");
}

#[test]
fn an_offer_of_another_type_is_left_alone() {
    let plain = HeaderField::Value("text/plain".to_string());
    let request = whip_post(Some(5000), &plain, None, text(OFFER)).ok().expect("sent on");
    assert_eq!(shown(&request.body), OFFER);
    assert_eq!(request.content_type, "text/plain");
    assert!(request.authorization.is_none());
    let bytes = whip_post(
        Some(5000),
        &HeaderField::Unreadable,
        None,
        Content::Binary(vec![255, 254]),
    )
    .ok()
    .expect("sent on");
    assert_eq!(bytes.content_type, "application/sdp");
    assert_eq!(shown(&bytes.body), "[255, 254]");
    assert_eq!(prepare_offer("text/plain", OFFER), OFFER);
}

#[test]
fn a_request_for_an_unknown_endpoint_goes_nowhere() {
    let post = whip_post(None, &HeaderField::Absent, None, text(OFFER)).err().expect("refused");
    assert_eq!(post.status, 404);
    assert_eq!(post.body, "WHIP endpoint not found");
    let patch = whip_resource_patch(None, "r", &HeaderField::Absent, text(""));
    assert_eq!(patch.err().map(|r| r.status), Some(404));
    assert_eq!(whip_resource_delete(None, "r").err().map(|r| r.status), Some(404));
    assert_eq!(endpoint_not_found().status, 404);
}

#[test]
fn an_answer_comes_back_under_the_public_path() {
    let headers = vec![
        ("content-type".to_string(), text("application/sdp")),
        ("server".to_string(), text("x")),
        ("ETag".to_string(), Content::Binary(vec![1])),
    ];
    let location = HeaderField::Value("/whip/resource/abc".to_string());
    let answer = "m=video 9 X 96\r\na=rtcp-fb:96 transport-cc\r\na=fmtp:96 a=1\r\n";
    let response = whip_answer("cam", 201, &location, &headers, text(answer));
    assert_eq!(response.status, 201);
    let names: Vec<&str> = response.headers.iter().map(|h| h.0.as_str()).collect();
    assert_eq!(
        names,
        vec![
            "Location",
            "content-type",
            "ETag",
            "Access-Control-Allow-Origin",
            "Access-Control-Allow-Methods",
            "Access-Control-Allow-Headers",
            "Access-Control-Expose-Headers",
        ]
    );
    assert_eq!(shown(&response.headers[0].1), "/whip/cam/resource/abc");
    let body = shown(&response.body);
    assert!(body.contains("a=rtcp-fb:96 goog-remb\r\n"));
    assert!(body.contains("x-google-start-bitrate=2000"));
    let bare = whip_answer("cam", 400, &HeaderField::Absent, &Vec::new(), Content::Binary(vec![7]));
    assert_eq!(bare.headers.len(), 4);
    assert_eq!(shown(&bare.body), "[7]");
}

#[test]
fn only_addresses_of_sessions_are_rewritten() {
    assert_eq!(rewrite_location("cam", "/whip/resource/1"), "/whip/cam/resource/1");
    assert_eq!(rewrite_location("cam", "https://elsewhere/1"), "https://elsewhere/1");
}

#[test]
fn headers_are_passed_on_whatever_their_case() {
    assert!(forwards_header("Content-Type"));
    assert!(forwards_header("ACCEPT-PATCH"));
    assert!(forwards_lowercase_header("link"));
    assert!(!forwards_header("Server"));
    assert!(!forwards_lowercase_header("Link"));
}

#[test]
fn candidates_and_farewells_go_to_the_session() {
    let request = whip_resource_patch(Some(80), "abc", &HeaderField::Absent, text("a=candidate"))
        .ok()
        .expect("sent on");
    assert_eq!(request.url, "http://127.0.0.1:80/whip/resource/abc");
    assert_eq!(request.content_type, "application/trickle-ice-sdpfrag");
    assert_eq!(shown(&request.body), "a=candidate");
    assert_eq!(
        whip_resource_delete(Some(80), "abc").ok().as_deref(),
        Some("http://127.0.0.1:80/whip/resource/abc")
    );
    assert_eq!(resource_url(80, "x"), "http://127.0.0.1:80/whip/resource/x");
    let response = resource_answer(204, None);
    assert_eq!(response.status, 204);
    assert_eq!(response.headers.len(), 1);
    assert_eq!(shown(&response.body), "[]");
    assert_eq!(shown(&resource_answer(200, Some(text("x"))).body), "x");
}

#[test]
fn a_preflight_is_answered_with_the_allowed_methods() {
    for response in [whip_options(), whip_resource_options()] {
        assert_eq!(response.status, 204);
        assert_eq!(response.headers[1].0, "Access-Control-Allow-Methods");
        assert_eq!(shown(&response.headers[1].1), "POST, PATCH, DELETE, OPTIONS");
    }
    assert_eq!(cors_headers().len(), 4);
}

#[test]
fn every_failure_has_its_answer() {
    let answer = |f: ProxyFailure| {
        let r = failure_reply(&f);
        (r.status, r.body)
    };
    assert_eq!(answer(ProxyFailure::NoClient), (500, "Internal error".to_string()));
    assert_eq!(answer(ProxyFailure::NoBody), (400, "Failed to read body".to_string()));
    assert_eq!(
        answer(ProxyFailure::NotSent("refused".to_string())),
        (502, "Proxy error: refused".to_string())
    );
    assert_eq!(answer(ProxyFailure::NoAnswer), (502, "Failed to read response".to_string()));
    assert_eq!(answer(ProxyFailure::NoResponse), (500, "Response build error".to_string()));
    assert_eq!(answer(ProxyFailure::NoTrickleResponse), (500, "Response error".to_string()));
}

#[test]
fn endpoints_are_listed_with_their_mode() {
    let list = list_whip_endpoints(&vec![("cam".to_string(), "audio_video".to_string())]);
    assert!(matches!(&list, Json::Array(v) if v.len() == 1));
    assert_eq!(render(list), r#"[{"endpoint_id":"cam","mode":"audio_video"}]"#);
}
