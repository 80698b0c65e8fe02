use strom::blocks::decklink;
use strom::blocks::decklink::{DeckLinkInputBuilder, DeckLinkOutputBuilder};
use strom::blocks::definition::EnumValue;
use strom::blocks::glcompositor;
use strom::blocks::glcompositor::{
    latencies_fit, parse_background, parse_num_inputs, parse_output_height, parse_output_width,
    GLCompositorBuilder,
};
use strom::blocks::liveaudiorouter;
use strom::blocks::liveaudiorouter::{
    link_input_channel, link_output_channel, parse_channel_from_pad_name, LiveAudioRouterBuilder,
};
use strom::blocks::mediaplayer;
use strom::blocks::mediaplayer::{
    is_address, is_current_instance, position_update_interval, uri_of_file, EndOfStream,
    MediaPlayerBuilder, MediaPlayerKey, MediaPlayerRegistry, MediaStream, PipelineState, PlayError,
};
use strom::blocks::plan::{BlockBuildError, BlockPlan, SettingValue};
use strom::blocks::routing::{
    build_matrix, channel_offsets, channel_total, channels_property, matrix_from_properties,
    parse_num_streams, parse_routing_json, parse_routing_key, parse_routing_matrix, read_layout,
    routes_from_entries, stream_for_channel, try_apply_live_matrix, ChannelLayout, Layouts, Route,
    RouteDest, RoutingMatrix,
};
use strom::blocks::rtmp;
use strom::blocks::rtmp::{
    audio_plan, build_chain, rtmp_missing_message, rtmp_package_hint, video_plan, AudioPlan,
    Chain, InputStep, Platform, RtmpInput, RtmpOutputBuilder,
};
use strom::properties::{Properties, PropertyValue};

fn props(pairs: Vec<(&str, PropertyValue)>) -> Properties {
    let mut p = Properties::new();
    for (name, value) in pairs {
        p.add(name, value);
    }
    p
}

fn text(s: &str) -> PropertyValue {
    PropertyValue::String(s.to_string())
}

fn ids(plan: &BlockPlan) -> Vec<&str> {
    plan.elements.iter().map(|e| e.id.as_str()).collect()
}

fn links(plan: &BlockPlan) -> Vec<String> {
    plan.links
        .iter()
        .map(|l| {
            format!(
                "{}.{} > {}.{}",
                l.from_element, l.from_pad, l.to_element, l.to_pad
            )
        })
        .collect()
}

fn setting<'a>(plan: &'a BlockPlan, id: &str, name: &str) -> &'a SettingValue {
    let element = plan
        .elements
        .iter()
        .find(|e| e.id == id)
        .expect("the element is there");
    &element
        .settings
        .entries
        .iter()
        .find(|s| s.0 == name)
        .expect("the setting is there")
        .1
}

/// Every connection is between elements that are there.
fn assert_connected(plan: &BlockPlan) {
    let ids = ids(plan);
    for l in &plan.links {
        assert!(ids.contains(&l.from_element.as_str()), "{}", l.from_element);
        assert!(ids.contains(&l.to_element.as_str()), "{}", l.to_element);
    }
}

/// No two elements have the same id.
fn assert_distinct(plan: &BlockPlan) {
    let mut ids = ids(plan);
    let n = ids.len();
    ids.sort();
    ids.dedup();
    assert_eq!(ids.len(), n);
}

// --- Routing ---

fn dest(output_idx: usize, channel_idx: usize) -> RouteDest {
    RouteDest {
        output_idx,
        channel_idx,
    }
}

#[test]
fn a_routing_key_names_a_stream_and_a_channel() {
    assert_eq!(parse_routing_key("i0c1", 'i'), Some((0, 1)));
    assert_eq!(parse_routing_key("o12c34", 'o'), Some((12, 34)));
    assert_eq!(parse_routing_key("o0c0", 'i'), None);
    assert_eq!(parse_routing_key("i0", 'i'), None);
    assert_eq!(parse_routing_key("ic0", 'i'), None);
    assert_eq!(parse_routing_key("i0c", 'i'), None);
    assert_eq!(parse_routing_key("", 'i'), None);
}

#[test]
fn channels_of_streams_stand_side_by_side() {
    let channels = vec![2, 1, 6];
    assert_eq!(channel_total(&channels), 9);
    assert_eq!(channel_offsets(&channels), vec![0, 2, 3]);
    assert_eq!(stream_for_channel(0, &channels), Some((0, 0)));
    assert_eq!(stream_for_channel(2, &channels), Some((1, 0)));
    assert_eq!(stream_for_channel(8, &channels), Some((2, 5)));
    assert_eq!(stream_for_channel(9, &channels), None);
}

#[test]
fn a_matrix_joins_what_is_routed_and_nothing_else() {
    let mut routing = RoutingMatrix::new();
    routing.insert(Route {
        input_idx: 0,
        channel_idx: 1,
        destinations: vec![dest(0, 0), dest(1, 1), dest(9, 9)],
    });
    routing.insert(Route {
        input_idx: 5,
        channel_idx: 0,
        destinations: vec![dest(0, 1)],
    });
    let matrix = build_matrix(&routing, &vec![2], &vec![2, 2]);
    assert_eq!(
        matrix,
        vec![
            vec![false, true],
            vec![false, false],
            vec![false, false],
            vec![false, true],
        ]
    );
}

#[test]
fn setting_a_route_again_replaces_it() {
    let mut routing = RoutingMatrix::new();
    for channel in [0, 1] {
        routing.insert(Route {
            input_idx: 0,
            channel_idx: 0,
            destinations: vec![dest(0, channel)],
        });
    }
    assert_eq!(
        build_matrix(&routing, &vec![1], &vec![2]),
        vec![vec![false], vec![true]]
    );
}

#[test]
fn routes_are_read_from_json() {
    let routing = parse_routing_json(r#"{"i0c0":["o0c0","o1c0","bad"],"x":["o0c0"],"i0c1":[]}"#);
    assert_eq!(routing.routes.len(), 1);
    assert_eq!(routing.routes[0].destinations.len(), 2);
    assert!(parse_routing_json("").routes.is_empty());
    assert!(parse_routing_json("{}").routes.is_empty());
    assert!(parse_routing_json("garbage").routes.is_empty());
    assert!(parse_routing_json(r#"{"i0c0":"o0c0"}"#).routes.is_empty());
    let entries = vec![("i1c0".to_string(), vec!["o0c1".to_string()])];
    assert_eq!(routes_from_entries(&entries).routes[0].input_idx, 1);
    assert!(parse_routing_matrix(&props(vec![])).routes.is_empty());
}

#[test]
fn stream_counts_are_kept_in_range() {
    assert_eq!(parse_num_streams(&props(vec![]), "num_inputs"), 2);
    let p = props(vec![
        ("num_inputs", PropertyValue::UInt(0)),
        ("num_outputs", PropertyValue::Int(99)),
    ]);
    assert_eq!(parse_num_streams(&p, "num_inputs"), 1);
    assert_eq!(parse_num_streams(&p, "num_outputs"), 8);
    assert_eq!(channels_property("input", 3), "input_3_channels");
    let layout = read_layout(&props(vec![
        ("num_inputs", PropertyValue::UInt(1)),
        ("input_0_channels", PropertyValue::UInt(1000)),
        ("output_1_channels", PropertyValue::Int(-1)),
    ]));
    assert_eq!(layout.inputs, vec![64]);
    assert_eq!(layout.outputs, vec![2, 2]);
}

#[test]
fn a_live_change_gives_what_building_would() {
    let json = r#"{"i0c0":["o0c1"]}"#;
    let p = props(vec![("routing_matrix", text(json))]);
    let built = matrix_from_properties(&p);
    assert_eq!(built.len(), 4);
    let mut known = Layouts::new();
    known.record_layout(
        "b:matrix",
        ChannelLayout {
            inputs: vec![2, 2],
            outputs: vec![2, 2],
        },
    );
    let live = try_apply_live_matrix(&known, "b:matrix", "routing_matrix", &text(json));
    assert_eq!(live, Some(built));
    assert!(try_apply_live_matrix(&known, "b:matrix", "other", &text(json)).is_none());
    assert!(try_apply_live_matrix(&known, "b:other", "routing_matrix", &text(json)).is_none());
    assert!(try_apply_live_matrix(&known, "c:matrix", "routing_matrix", &text(json)).is_none());
    assert!(try_apply_live_matrix(
        &known,
        "b:matrix",
        "routing_matrix",
        &PropertyValue::Int(1)
    )
    .is_none());
    known.record_layout(
        "b:matrix",
        ChannelLayout {
            inputs: vec![1],
            outputs: vec![1],
        },
    );
    assert_eq!(known.layout_for("b:matrix").map(|l| l.inputs.len()), Some(1));
}

// --- Live audio router ---

#[test]
fn a_router_gathers_mixes_and_parts() {
    let built = LiveAudioRouterBuilder.build("b", &props(vec![]));
    assert_eq!(built.matrix_id, "b:matrix");
    assert_eq!(built.layout.inputs, vec![2, 2]);
    assert_connected(&built.plan);
    assert!(matches!(
        setting(&built.plan, "b:matrix", "in-channels"),
        SettingValue::U32(4)
    ));
    let gather = &built.plan.elements[0];
    assert_eq!(gather.id, "b:interleave_in");
    assert_eq!(gather.requests.len(), 4);
    assert_eq!(gather.requests[0].template, "sink_%u");
    let pads = LiveAudioRouterBuilder.get_external_pads(&props(vec![])).unwrap();
    let ids = ids(&built.plan);
    for pad in pads.inputs.iter().chain(pads.outputs.iter()) {
        let id = format!("b:{}", pad.internal_element_id);
        assert!(ids.contains(&id.as_str()), "{}", id);
    }
    assert_eq!(liveaudiorouter::get_blocks()[0].id, "builtin.liveaudiorouter");
}

#[test]
fn channels_find_their_stream() {
    assert_eq!(parse_channel_from_pad_name("src_7"), Some(7));
    assert_eq!(parse_channel_from_pad_name("sink_7"), None);
    let out = link_output_channel("b", "src_3", &vec![2, 2]).expect("a stream");
    assert_eq!(out.stream, Some(1));
    assert!(link_output_channel("b", "src_4", &vec![2, 2]).is_none());
    let into = link_input_channel("b", "src_1", &vec![2, 2], 1).expect("a stream");
    assert_eq!(into.stream, None);
    assert_eq!(into.sink_name, "sink_3");
    assert!(link_input_channel("b", "src_2", &vec![2, 2], 1).is_none());
}

#[test]
fn channels_keep_to_their_own_queues_and_pads() {
    let mut taken: Vec<(String, String)> = Vec::new();
    for (stream, channels) in [2usize, 1, 3].into_iter().enumerate() {
        for channel in 0..channels {
            let pad = format!("src_{}", channel);
            let link = link_input_channel("b", &pad, &vec![2, 1, 3], stream).expect("a stream");
            for (queue, sink) in &taken {
                assert_ne!(*queue, link.queue_id);
                assert_ne!(*sink, link.sink_name);
            }
            taken.push((link.queue_id, link.sink_name));
        }
    }
    assert_eq!(taken.len(), 6);
    assert_eq!(taken[5].1, "sink_5");
    let mut taken: Vec<(String, Option<usize>, String)> = Vec::new();
    for channel in 0..6 {
        let pad = format!("src_{}", channel);
        let link = link_output_channel("b", &pad, &vec![2, 1, 3]).expect("a stream");
        for (queue, stream, sink) in &taken {
            assert_ne!(*queue, link.queue_id);
            assert!(*stream != link.stream || *sink != link.sink_name);
        }
        taken.push((link.queue_id, link.stream, link.sink_name));
    }
    assert_eq!(taken[2].1, Some(1));
    assert_eq!(taken[2].2, "sink_0");
}

#[test]
fn a_place_stands_in_the_stream_that_is_found_for_it() {
    let channels = vec![2, 0, 3];
    let offsets = channel_offsets(&channels);
    for place in 0..5 {
        let (stream, local) = stream_for_channel(place, &channels).expect("a stream");
        assert!(local < channels[stream]);
        assert_eq!(offsets[stream] + local, place);
    }
    assert_eq!(stream_for_channel(5, &channels), None);
}

#[test]
fn elements_of_a_block_have_their_own_ids() {
    let wide = props(vec![
        ("num_inputs", PropertyValue::UInt(12)),
        ("num_outputs", PropertyValue::UInt(12)),
    ]);
    let router = LiveAudioRouterBuilder.build("b", &wide);
    assert!(ids(&router.plan).contains(&"b:queue_out_1"));
    assert_distinct(&router.plan);
    assert_distinct(&GLCompositorBuilder.build("b", &wide));
    assert_distinct(&MediaPlayerBuilder.build("b", None));
    let modes = ["audio_video", "video", "audio"];
    for mode in modes {
        let p = props(vec![("stream_mode", text(mode))]);
        assert_distinct(&DeckLinkInputBuilder.build("b", &p));
        assert_distinct(&DeckLinkOutputBuilder.build("b", &p));
    }
    let output = RtmpOutputBuilder
        .build("b", &props(vec![]), "rtmp://x", true, Platform::Other)
        .ok()
        .expect("built");
    assert_distinct(&output);
}

// --- Media player ---

fn player(files: Vec<&str>, looping: bool) -> mediaplayer::MediaPlayerState {
    let mut state = MediaPlayerBuilder.start(
        "b",
        &props(vec![("loop_playlist", PropertyValue::Bool(looping))]),
    );
    state.set_playlist(files.into_iter().map(|f| f.to_string()).collect());
    state
}

#[test]
fn a_player_moves_through_its_playlist() {
    let mut s = player(vec!["a", "b"], false);
    assert_eq!(s.playlist_len(), 2);
    assert_eq!(s.current_file().as_deref(), Some("a"));
    assert!(matches!(s.previous(), Err(PlayError::AtFirstFile)));
    assert_eq!(s.next().ok().as_deref(), Some("b"));
    assert!(matches!(s.next(), Err(PlayError::AtLastFile)));
    assert_eq!(s.previous().ok().as_deref(), Some("a"));
    assert_eq!(s.goto(1).ok().as_deref(), Some("b"));
    assert!(matches!(s.goto(2), Err(PlayError::OutOfRange(2, 2))));
    assert_eq!(s.current_file().as_deref(), Some("b"));
    assert!(matches!(player(vec![], true).next(), Err(PlayError::EmptyPlaylist)));
    assert!(matches!(player(vec![], true).previous(), Err(PlayError::EmptyPlaylist)));
    let mut shortened = player(vec!["a", "b", "c", "d"], false);
    let _ = shortened.goto(3);
    shortened.set_playlist(vec!["a".to_string(), "b".to_string()]);
    assert!(matches!(shortened.previous(), Err(PlayError::NoFile)));
}

#[test]
fn a_playlist_that_loops_starts_over_both_ways() {
    let mut s = player(vec!["a", "b", "c"], true);
    for _ in 0..4 {
        let here = s.current_index;
        assert!(s.next().is_ok());
        assert!(s.previous().is_ok());
        assert_eq!(s.current_index, here);
        assert!(s.next().is_ok());
    }
    assert_eq!(s.previous().ok().as_deref(), Some("a"));
    assert_eq!(s.previous().ok().as_deref(), Some("c"));
}

#[test]
fn errors_of_a_player_are_put_into_words() {
    let words = |e: PlayError| e.to_message();
    assert!(words(PlayError::OutOfRange(7, 3)).contains('7'));
    assert!(words(PlayError::OutOfRange(7, 3)).contains('3'));
    assert_ne!(words(PlayError::AtLastFile), words(PlayError::AtFirstFile));
    assert!(!words(PlayError::EmptyPlaylist).is_empty());
    assert!(!words(PlayError::NoFile).is_empty());
}

#[test]
fn the_end_of_a_file_leads_on_or_stops() {
    let mut s = player(vec!["a", "b"], false);
    assert!(matches!(s.end_of_stream(), EndOfStream::Load(f) if f == "b"));
    match s.end_of_stream() {
        EndOfStream::Stopped(e) => {
            assert_eq!(e.state, "stopped");
            assert!(e.current_file.is_none());
        }
        _ => panic!("it should stop"),
    }
}

#[test]
fn the_first_video_and_the_first_audio_are_connected() {
    let mut s = player(vec!["a"], false);
    assert_eq!(s.stream_for_pad("video/x-raw"), Some(MediaStream::Video));
    s.linked(MediaStream::Video);
    assert_eq!(s.stream_for_pad("video/x-raw"), None);
    assert_eq!(s.stream_for_pad("audio/x-raw"), Some(MediaStream::Audio));
    s.linked(MediaStream::Audio);
    assert_eq!(s.stream_for_pad("audio/x-raw"), None);
    assert_eq!(s.stream_for_pad("text/x-raw"), None);
    s.begin_load();
    assert_eq!(s.stream_for_pad("video/x-raw"), Some(MediaStream::Video));
}

#[test]
fn a_player_tells_what_it_does() {
    let mut s = player(vec!["a"], false);
    s.started();
    assert_eq!(s.state_string(), "playing");
    assert!(s.pauses_for_seek());
    s.paused();
    assert_eq!(s.state_string(), "paused");
    assert!(!s.pauses_for_seek());
    s.started();
    s.set_playlist(Vec::new());
    assert_eq!(s.state_string(), "stopped");
    let e = player(vec!["a", "b"], false).position_event(Some(5), None);
    assert_eq!((e.position_ns, e.duration_ns), (5, 0));
    assert_eq!((e.current_file_index, e.total_files), (0, 2));
    let s = player(vec!["a"], false);
    assert_eq!(s.state_event(PipelineState::Playing).state, "playing");
    assert_eq!(s.state_event(PipelineState::Paused).state, "paused");
    assert_eq!(s.state_event(PipelineState::Ready).state, "stopped");
    assert_eq!(s.state_event(PipelineState::Null).state, "stopped");
    assert_eq!(s.state_event(PipelineState::Pending).state, "unknown");
}

#[test]
fn files_become_addresses() {
    assert!(is_address("https://a.example/x.mp4"));
    assert_eq!(uri_of_file("file:///x", Some("/y".to_string())), "file:///x");
    assert_eq!(uri_of_file("x.mp4", Some("/media/x.mp4".to_string())), "file:///media/x.mp4");
    assert_eq!(uri_of_file("x.mp4", None), "file://x.mp4");
}

#[test]
fn players_are_registered_by_flow_and_block() {
    let key = |flow_id: u128, block: &str| MediaPlayerKey {
        flow_id,
        block_id: block.to_string(),
    };
    let mut registry: MediaPlayerRegistry<u32> = MediaPlayerRegistry::new();
    registry.register(key(1, "a"), 10);
    registry.register(key(1, "b"), 20);
    registry.register(key(1, "a"), 30);
    assert_eq!(registry.get(&key(1, "a")), Some(&30));
    assert_eq!(registry.get(&key(1, "b")), Some(&20));
    assert!(!registry.contains(&key(2, "a")));
    registry.unregister(&key(1, "a"));
    assert!(!registry.contains(&key(1, "a")));
    assert!(registry.contains(&key(1, "b")));
    assert!(is_current_instance(Some("x"), "x"));
    assert!(!is_current_instance(Some("x"), "y"));
    assert!(!is_current_instance(None, "y"));
}

#[test]
fn a_player_starts_with_the_files_of_its_properties() {
    let p = props(vec![
        ("playlist", text(r#"["a.mp4","b.mp4"]"#)),
        ("_flow_id", text("00000000-0000-0000-0000-000000000005")),
    ]);
    let s = MediaPlayerBuilder.start("b", &p);
    assert_eq!(s.playlist, vec!["a.mp4", "b.mp4"]);
    assert_eq!(s.flow_id, 5);
    assert_eq!(s.block_id, "b");
    // Two players are told apart even if they are built alike.
    assert_ne!(s.instance_id, MediaPlayerBuilder.start("b", &p).instance_id);
    let bad = MediaPlayerBuilder.start("b", &props(vec![("playlist", text("[1]"))]));
    assert!(bad.playlist.is_empty());
    let plan = MediaPlayerBuilder.build("b", Some("file:///a.mp4".to_string()));
    assert_connected(&plan);
    assert!(position_update_interval(&props(vec![])) > 0);
    assert_eq!(mediaplayer::get_blocks().len(), 1);
}

// --- RTMP ---

#[test]
fn only_h264_and_aac_can_be_published() {
    assert!(video_plan("video/x-h264").is_ok());
    assert!(video_plan("video/x-raw").unwrap_err().contains("builtin.videoenc"));
    assert!(video_plan("video/x-vp9").unwrap_err().contains("video/x-vp9"));
    assert_eq!(audio_plan("audio/x-raw", 4, 3), Ok(AudioPlan::Encode));
    assert_eq!(audio_plan("audio/mpeg", 4, 3), Ok(AudioPlan::Parse));
    assert_eq!(audio_plan("audio/mpeg", 2, 3), Ok(AudioPlan::Parse));
    assert!(audio_plan("audio/mpeg", 1, 3).unwrap_err().contains("MP3"));
    assert!(audio_plan("audio/mpeg", 1, 2)
        .unwrap_err()
        .contains("MPEG-1 audio layer 2, which FLV cannot carry"));
    assert!(audio_plan("audio/x-opus", 4, 3).unwrap_err().ends_with("audio/x-opus"));
}

#[test]
fn a_reserved_pad_is_used_or_handed_back() {
    let mut input = RtmpInput::new();
    input.reserve("video".to_string());
    assert!(matches!(
        input.video_caps("video/x-h264"),
        InputStep::Build(Chain::Video, pad) if pad == "video"
    ));
    assert!(matches!(input.video_caps("video/x-raw"), InputStep::Leave));
    let mut input = RtmpInput::new();
    input.reserve("audio".to_string());
    assert!(matches!(
        input.audio_caps("audio/x-opus", None, None),
        InputStep::Release(pad, _) if pad == "audio"
    ));
    let mut input = RtmpInput::new();
    assert!(matches!(input.audio_caps("audio/x-raw", None, None), InputStep::Leave));
    let mut input = RtmpInput::new();
    input.reserve("audio".to_string());
    assert!(matches!(
        input.audio_caps("audio/mpeg", None, None),
        InputStep::Build(Chain::AacAudio, _)
    ));
}

#[test]
fn an_output_publishes_where_it_is_told() {
    let p = props(vec![("location", text("rtmp://x/live"))]);
    let plan = RtmpOutputBuilder
        .build("b", &p, "rtmp://default", true, Platform::Other)
        .ok()
        .expect("built");
    assert_connected(&plan);
    assert!(matches!(
        setting(&plan, "b:rtmp_sink", "location"),
        SettingValue::Text(s) if s == "rtmp://x/live"
    ));
    let missing = RtmpOutputBuilder.build("b", &p, "rtmp://default", false, Platform::MacOs);
    assert!(matches!(missing, Err(BlockBuildError::MissingPlugin(_))));
    assert!(rtmp_missing_message(Platform::Windows).contains(rtmp_package_hint(Platform::Windows)));
    assert_ne!(rtmp_package_hint(Platform::MacOs), rtmp_package_hint(Platform::Other));
    let chain = build_chain("b", Chain::RawAudio, "audio");
    assert!(ids(&chain).contains(&"b:rtmp_audio_convert"));
    assert!(links(&chain).iter().any(|l| l.starts_with("b:rtmp_audio_input.src")));
    assert_eq!(rtmp::get_blocks("rtmp://default").len(), 1);
}

// --- DeckLink ---

#[test]
fn a_card_is_captured_as_the_mode_says() {
    let plan = DeckLinkInputBuilder.build("b", &props(vec![]));
    assert_connected(&plan);
    assert!(ids(&plan).contains(&"b:decklinkvideosrc"));
    assert!(ids(&plan).contains(&"b:decklinkaudiosrc"));
    // Audio comes from the card's video clock, so the video source stays.
    let audio = DeckLinkInputBuilder.build("b", &props(vec![("stream_mode", text("audio"))]));
    assert_connected(&audio);
    assert!(ids(&audio).contains(&"b:decklinkvideosrc"));
    let pads = DeckLinkInputBuilder
        .get_external_pads(&props(vec![("stream_mode", text("audio"))]))
        .unwrap();
    assert_eq!(pads.outputs.len(), 1);
    let out = DeckLinkOutputBuilder.build("b", &props(vec![("stream_mode", text("audio"))]));
    assert_connected(&out);
    assert!(ids(&out).contains(&"b:decklinkvideosink"));
    let pads = DeckLinkOutputBuilder.get_external_pads(&props(vec![])).unwrap();
    assert_eq!(pads.inputs.len(), 2);
    let formats = vec![EnumValue {
        value: "uyvy".to_string(),
        label: None,
    }];
    let blocks = decklink::get_blocks(&formats, &formats);
    assert_eq!(blocks.len(), 2);
}

// --- Compositor ---

#[test]
fn sizes_of_the_canvas_are_kept_in_range() {
    assert_eq!(parse_num_inputs(&props(vec![])), 2);
    let p = props(vec![
        ("num_inputs", PropertyValue::UInt(99)),
        ("output_width", PropertyValue::UInt(0)),
        ("output_height", PropertyValue::Int(9999)),
        ("background", text("pink")),
    ]);
    assert_eq!(parse_num_inputs(&p), 16);
    assert_eq!(parse_output_width(&p), 1);
    assert_eq!(parse_output_height(&p), 4320);
    assert_eq!(parse_background(&p), "black");
    assert_eq!(parse_background(&props(vec![("background", text("checker"))])), "checker");
}

#[test]
fn a_compositor_connects_each_input_to_its_pad() {
    let mut plan = GLCompositorBuilder.build("b", &props(vec![]));
    let names = vec!["sink_0".to_string(), "sink_1".to_string()];
    GLCompositorBuilder.connect(&mut plan, "b", &names);
    assert_connected(&plan);
    assert!(links(&plan).iter().any(|l| l.ends_with(".sink_1")));
    let pads = GLCompositorBuilder.get_external_pads(&props(vec![])).unwrap();
    let ids = ids(&plan);
    for pad in pads.inputs.iter().chain(pads.outputs.iter()) {
        let id = format!("b:{}", pad.internal_element_id);
        assert!(ids.contains(&id.as_str()), "{}", id);
    }
    assert_eq!(glcompositor::get_blocks()[0].id, "builtin.glcompositor");
}

#[test]
fn a_compositor_is_defined_with_the_pads_of_its_uploads() {
    let blocks = glcompositor::get_blocks();
    let defined = &blocks[0].external_pads;
    let inputs: Vec<(&str, &str, &str)> = defined
        .inputs
        .iter()
        .map(|p| {
            (
                p.name.as_str(),
                p.internal_element_id.as_str(),
                p.internal_pad_name.as_str(),
            )
        })
        .collect();
    assert_eq!(
        inputs,
        vec![
            ("video_in_0", "glupload_0", "sink"),
            ("video_in_1", "glupload_1", "sink"),
        ]
    );
    let shown = GLCompositorBuilder.get_external_pads(&props(vec![])).unwrap();
    let shown_inputs: Vec<&str> = shown
        .inputs
        .iter()
        .map(|p| p.internal_element_id.as_str())
        .collect();
    assert_eq!(shown_inputs, vec!["glupload_0", "glupload_1"]);
}

#[test]
fn a_latency_must_fit_once_it_is_in_nanoseconds() {
    assert!(latencies_fit(&props(vec![])));
    let most = u64::MAX / 1_000_000;
    assert!(latencies_fit(&props(vec![("latency", PropertyValue::UInt(most))])));
    assert!(!latencies_fit(&props(vec![("latency", PropertyValue::UInt(most + 1))])));
    assert!(!latencies_fit(&props(vec![(
        "min_upstream_latency",
        PropertyValue::UInt(u64::MAX)
    )])));
    let plan = GLCompositorBuilder.build("b", &props(vec![("latency", PropertyValue::UInt(20))]));
    assert!(matches!(
        setting(&plan, "b:mixer", "latency"),
        SettingValue::Parsed(s) if s == "20000000"
    ));
}
