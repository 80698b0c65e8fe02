use strom::blocks::audio_bridge;
use strom::blocks::audio_bridge::{
    AudioBridgeInputBuilder, AudioBridgeOutputBuilder, BridgeLimits, Number,
};
use strom::blocks::decode_chain::{forced_mode, link_raw_video_through_deinterlace};
use strom::blocks::definition::{MediaType, PropertyType};
use strom::blocks::devicesrc;
use strom::blocks::devicesrc::{make_source, LocalDevice, LocalInputBuilder};
use strom::blocks::html_input;
use strom::blocks::html_input::{
    element_failure, uint_property, HtmlInputBuilder, DEFAULT_FRAMERATE, DEFAULT_HEIGHT,
    DEFAULT_WIDTH,
};
use strom::blocks::mixer::parse_solo_property_name;
use strom::blocks::plan::{
    creation_error, BlockBuildError, BlockPlan, CapsField, CapsSpec, Recipe, SettingValue,
};
use strom::blocks::refusal::{audio_refusal, video_refusal};
use strom::blocks::time_offset;
use strom::blocks::time_offset::{
    build_offset, live_offset_property_entry, try_apply_live_offset, try_read_live_offset,
    Milliseconds,
};
use strom::properties::{Properties, PropertyValue};

fn props(pairs: Vec<(&str, PropertyValue)>) -> Properties {
    let mut p = Properties::new();
    for (name, value) in pairs {
        p.add(name, value);
    }
    p
}

fn text(s: &str) -> PropertyValue {
    PropertyValue::String(s.to_string())
}

fn ids(plan: &BlockPlan) -> Vec<&str> {
    plan.elements.iter().map(|e| e.id.as_str()).collect()
}

fn links(plan: &BlockPlan) -> Vec<String> {
    plan.links
        .iter()
        .map(|l| {
            format!(
                "{}.{} > {}.{}",
                l.from_element, l.from_pad, l.to_element, l.to_pad
            )
        })
        .collect()
}

fn setting<'a>(plan: &'a BlockPlan, id: &str, name: &str) -> &'a SettingValue {
    let element = plan
        .elements
        .iter()
        .find(|e| e.id == id)
        .expect("the element is there");
    &element
        .settings
        .entries
        .iter()
        .find(|s| s.0 == name)
        .expect("the setting is there")
        .1
}

// --- HTML input ---

#[test]
fn video_only_is_the_default_shape() {
    let pads = HtmlInputBuilder
        .get_external_pads(&props(vec![]))
        .unwrap();
    assert!(pads.inputs.is_empty());
    assert_eq!(pads.outputs.len(), 1);
    assert_eq!(pads.outputs[0].name, "video_out");
    assert!(matches!(pads.outputs[0].media_type, MediaType::Video));
    // A lone output needs no label to tell it apart from a sibling.
    assert!(pads.outputs[0].label.is_none());
}

#[test]
fn audio_video_exposes_both_pads_labelled() {
    let pads = HtmlInputBuilder
        .get_external_pads(&props(vec![("stream_mode", text("audio_video"))]))
        .unwrap();
    let names: Vec<_> = pads.outputs.iter().map(|p| p.name.as_str()).collect();
    assert_eq!(names, vec!["video_out", "audio_out"]);
    assert_eq!(pads.outputs[0].label.as_deref(), Some("V"));
    assert_eq!(pads.outputs[1].label.as_deref(), Some("A"));
}

#[test]
fn audio_only_exposes_audio_alone() {
    let pads = HtmlInputBuilder
        .get_external_pads(&props(vec![("stream_mode", text("audio"))]))
        .unwrap();
    assert_eq!(pads.outputs.len(), 1);
    assert_eq!(pads.outputs[0].name, "audio_out");
    assert!(pads.outputs[0].label.is_none());
}

#[test]
fn sizes_fall_back_rather_than_negotiating_zero() {
    // A zero or negative viewport cannot be negotiated, and a block that fails to
    // start says less than one that renders at the default.
    let p = props(vec![
        ("width", PropertyValue::UInt(0)),
        ("height", PropertyValue::Int(-1)),
        ("framerate", text("thirty")),
    ]);
    assert_eq!(uint_property(&p, "width", DEFAULT_WIDTH), DEFAULT_WIDTH);
    assert_eq!(uint_property(&p, "height", DEFAULT_HEIGHT), DEFAULT_HEIGHT);
    assert_eq!(
        uint_property(&p, "framerate", DEFAULT_FRAMERATE),
        DEFAULT_FRAMERATE
    );
}

#[test]
fn an_int_viewport_is_accepted_as_written() {
    let p = props(vec![("width", PropertyValue::Int(1280))]);
    assert_eq!(uint_property(&p, "width", DEFAULT_WIDTH), 1280);
}

#[test]
fn a_silent_page_needs_no_demuxer() {
    let plan = HtmlInputBuilder.build("b", &props(vec![("width", PropertyValue::UInt(640))]));
    assert_eq!(
        ids(&plan),
        vec!["b:cefsrc", "b:capsfilter", "b:videoconvert", "b:video_output"]
    );
    assert_eq!(
        links(&plan),
        vec![
            "b:cefsrc.src > b:capsfilter.sink",
            "b:capsfilter.src > b:videoconvert.sink",
            "b:videoconvert.src > b:video_output.sink",
        ]
    );
    assert!(matches!(
        setting(&plan, "b:cefsrc", "url"),
        SettingValue::Text(s) if s == "https://example.com"
    ));
    match setting(&plan, "b:capsfilter", "caps") {
        SettingValue::Caps(caps) => {
            assert!(matches!(&caps.fields[1], (name, CapsField::Int(640)) if name == "width"));
            assert!(matches!(&caps.fields[3], (_, CapsField::Fraction(30, 1))));
        }
        _ => panic!("caps are caps"),
    }
}

#[test]
fn a_page_that_is_only_heard_is_rendered_all_the_same() {
    let plan = HtmlInputBuilder.build("b", &props(vec![("stream_mode", text("audio"))]));
    assert!(ids(&plan).contains(&"b:video_sink"));
    assert!(links(&plan).contains(&"b:cefdemux.video > b:video_sink.sink".to_string()));
    assert!(links(&plan).contains(&"b:audioresample.src > b:audio_output.sink".to_string()));
}

#[test]
fn a_missing_browser_plugin_is_named() {
    assert!(matches!(
        element_failure("cefsrc", "no such element"),
        BlockBuildError::MissingPlugin(s) if s.contains("gstcefsrc") && s.contains("`cefsrc`")
    ));
    assert!(matches!(
        element_failure("videoconvert", "no such element"),
        BlockBuildError::ElementCreation(s)
            if s == "Failed to create videoconvert for the HTML input block: no such element"
    ));
    let plan = HtmlInputBuilder.build("b", &props(vec![]));
    assert!(matches!(
        creation_error(&plan.elements[0], "gone"),
        BlockBuildError::ElementCreation(s) if s == "cefsrc: gone"
    ));
}

#[test]
fn a_page_and_its_switch_are_read_from_the_properties() {
    let p = props(vec![
        ("url", text("https://a.example")),
        ("remote_control", PropertyValue::Bool(true)),
    ]);
    assert_eq!(html_input::url(&p), "https://a.example");
    assert!(html_input::remote_control_enabled(&p));
    let blank = props(vec![("url", text("  "))]);
    assert_eq!(html_input::url(&blank), "https://example.com");
    assert!(!html_input::remote_control_enabled(&blank));
    let blocks = html_input::get_blocks();
    assert_eq!(blocks[0].id, "builtin.html_input");
    assert_eq!(blocks[0].exposed_properties.len(), 6);
}

// --- Refusals ---

#[test]
fn raw_video_points_at_the_video_encoder_block() {
    let reason = video_refusal("Recorder", "H.264 or H.265", "video/x-raw");
    assert!(reason.contains("is raw"), "{}", reason);
    assert!(reason.contains("builtin.videoenc"), "{}", reason);
}

#[test]
fn another_codec_is_named_and_points_at_the_codec_property() {
    let reason = video_refusal("Recorder", "H.264 or H.265", "video/x-vp9");
    assert!(reason.contains("video/x-vp9"), "{}", reason);
    assert!(reason.contains("builtin.videoenc's codec"), "{}", reason);
}

#[test]
fn audio_refusal_names_what_arrived_and_the_fix() {
    let reason = audio_refusal("TAMS Output", "MP3, AAC, Opus or AC-3", "audio/x-flac");
    assert!(reason.contains("audio/x-flac"), "{}", reason);
    assert!(reason.contains("builtin.audioenc's codec"), "{}", reason);
}

#[test]
fn a_refusal_reads_as_one_sentence_after_another() {
    assert_eq!(
        audio_refusal("Recorder", "AAC", "audio/x-raw"),
        "Recorder needs AAC audio, but its audio input is raw. Place a builtin.audioenc block before it and link its encoded_out pad"
    );
    assert_eq!(
        video_refusal("Recorder", "H.264", "video/x-vp8"),
        "Recorder needs H.264 video, but its video input carries video/x-vp8. Set builtin.videoenc's codec to one of those"
    );
}

// --- Time offset ---

#[test]
fn definition_is_generic() {
    let blocks = time_offset::get_blocks();
    assert_eq!(blocks.len(), 1);
    let b = &blocks[0];
    assert_eq!(b.id, "builtin.time_offset");
    assert_eq!(b.exposed_properties.len(), 1);
    assert_eq!(b.exposed_properties[0].name, "offset_ms");
    assert!(b.exposed_properties[0].live);
    assert!(matches!(
        b.external_pads.inputs[0].media_type,
        MediaType::Generic
    ));
    assert!(matches!(
        b.external_pads.outputs[0].media_type,
        MediaType::Generic
    ));
}

fn float(value: f64) -> PropertyValue {
    PropertyValue::Float(value.to_bits())
}

/// The offset of a pad, in nanoseconds.
fn pad_offset(ms: Milliseconds) -> i64 {
    match ms {
        Milliseconds::Whole(n) => (n as f64 * 1_000_000.0) as i64,
        Milliseconds::Fraction(bits) => (f64::from_bits(bits) * 1_000_000.0) as i64,
    }
}

#[test]
fn live_apply_sets_pad_offset_when_element_matches() {
    let handled = try_apply_live_offset("blk1:offset_identity", "offset_ms", &float(50.0));
    assert!(handled.handled);
    assert_eq!(handled.offset.map(pad_offset), Some(50_000_000));
}

#[test]
fn live_apply_handles_negative_offset() {
    let handled = try_apply_live_offset("blk1:offset_identity", "offset_ms", &float(-50.0));
    assert!(handled.handled);
    assert_eq!(handled.offset.map(pad_offset), Some(-50_000_000));
}

#[test]
fn build_applies_initial_offset() {
    let result = build_offset("blk2", &props(vec![("offset_ms", float(120.0))]));
    assert_eq!(result.plan.elements.len(), 1);
    assert_eq!(result.plan.elements[0].id, "blk2:offset_identity");
    assert_eq!(pad_offset(result.offset), 120_000_000);
}

#[test]
fn live_apply_skips_non_offset_element() {
    let other = try_apply_live_offset("blk1:something_else", "offset_ms", &float(50.0));
    assert!(!other.handled);
    assert!(other.offset.is_none());
}

#[test]
fn live_apply_skips_other_property() {
    let other = try_apply_live_offset("blk1:offset_identity", "other_prop", &float(50.0));
    assert!(!other.handled);
    assert!(other.offset.is_none());
}

#[test]
fn live_read_skips_non_offset_element() {
    assert!(!try_read_live_offset("blk1:something_else", "offset_ms"));
}

#[test]
fn live_read_skips_other_property() {
    assert!(!try_read_live_offset("blk1:offset_identity", "other_prop"));
}

#[test]
fn property_entry_skips_non_offset_element() {
    assert!(live_offset_property_entry("blk1:something_else").is_none());
}

#[test]
fn an_offset_is_taken_for_the_element_of_the_block() {
    assert_eq!(
        try_apply_live_offset("blk1:offset_identity", "offset_ms", &float(-50.0)).offset,
        Some(Milliseconds::Fraction((-50.0f64).to_bits()))
    );
    assert_eq!(
        try_apply_live_offset("blk1:offset_identity", "offset_ms", &PropertyValue::Int(50)).offset,
        Some(Milliseconds::Whole(50))
    );
    // What is no number changes nothing, but is nobody else's to set.
    let unreadable = try_apply_live_offset("blk1:offset_identity", "offset_ms", &text("50"));
    assert!(unreadable.handled);
    assert!(unreadable.offset.is_none());
    assert!(try_read_live_offset("blk1:offset_identity", "offset_ms"));
    assert_eq!(
        live_offset_property_entry("blk1:offset_identity").as_deref(),
        Some("offset_ms")
    );
}

#[test]
fn a_built_offset_is_on_its_own_element() {
    let built = build_offset("blk2", &props(vec![("offset_ms", float(120.0))]));
    assert_eq!(ids(&built.plan), vec!["blk2:offset_identity"]);
    assert!(time_offset::is_offset_element(&built.plan.elements[0].id));
    assert_eq!(built.offset, Milliseconds::Fraction(120.0f64.to_bits()));
    let unset = build_offset("blk2", &props(vec![]));
    assert_eq!(unset.offset, Milliseconds::Fraction(0));
}

// --- Deinterlacing ---

#[test]
fn interlaced_sources_are_deinterlaced_by_force() {
    assert_eq!(forced_mode(Some("interleaved")).as_deref(), Some("interlaced"));
    assert_eq!(forced_mode(Some("mixed")).as_deref(), Some("interlaced"));
    assert_eq!(forced_mode(Some("progressive")), None);
    assert_eq!(forced_mode(None), None);
    let plan = link_raw_video_through_deinterlace("b", "video_0", "b:out");
    assert_eq!(ids(&plan), vec!["b:deinterlace_video_0"]);
    assert_eq!(links(&plan), vec!["b:deinterlace_video_0.src > b:out.sink"]);
    assert!(matches!(
        setting(&plan, "b:deinterlace_video_0", "mode"),
        SettingValue::Parsed(s) if s == "auto"
    ));
}

// --- Solo properties ---

#[test]
fn a_solo_property_names_its_channel() {
    assert_eq!(parse_solo_property_name("ch1_pfl"), Some(1));
    assert_eq!(parse_solo_property_name("ch12_afl"), Some(12));
    assert_eq!(parse_solo_property_name("ch12_mute"), None);
    assert_eq!(parse_solo_property_name("aux1_pfl"), None);
    assert_eq!(parse_solo_property_name("ch0_pfl"), None);
    assert_eq!(parse_solo_property_name("ch00_afl"), None);
    assert_eq!(parse_solo_property_name("ch01_afl"), Some(1));
    assert_eq!(parse_solo_property_name("ch_pfl"), None);
    assert_eq!(parse_solo_property_name("ch1x_pfl"), None);
    assert_eq!(parse_solo_property_name("chch1_pfl"), None);
    assert_eq!(parse_solo_property_name(""), None);
}

// --- Local input ---

fn camera() -> Vec<LocalDevice> {
    vec![LocalDevice {
        id: "cam-1".to_string(),
        display_name: "Desk".to_string(),
    }]
}

#[test]
fn a_local_input_without_devices_uses_the_defaults() {
    let plan = LocalInputBuilder
        .build("b", &props(vec![]), "videoconvert", &Vec::new())
        .ok()
        .expect("built");
    assert_eq!(
        ids(&plan),
        vec![
            "b:videosrc",
            "b:videoconvert",
            "b:videocapsfilter",
            "b:audiosrc",
            "b:audioconvert",
            "b:audioresample",
            "b:audiocapsfilter",
        ]
    );
    assert_eq!(plan.elements[0].factory, "autovideosrc");
    assert_eq!(plan.elements[3].factory, "autoaudiosrc");
    assert_eq!(
        links(&plan)[4],
        "b:audioresample.src > b:audiocapsfilter.sink"
    );
}

#[test]
fn a_picked_device_makes_its_own_source() {
    let p = props(vec![
        ("stream_mode", text("video")),
        ("video_device", text("cam-1")),
    ]);
    let plan = LocalInputBuilder
        .build("b", &p, "autovideoconvert", &camera())
        .ok()
        .expect("built");
    assert!(matches!(plan.elements[0].recipe, Recipe::Device));
    assert_eq!(plan.elements[0].factory, "cam-1");
    assert_eq!(
        plan.elements[0].label,
        "create_element for Video/Source device 'Desk' (cam-1)"
    );
    assert_eq!(plan.elements[1].factory, "autovideoconvert");
    assert_eq!(plan.elements.len(), 3);
}

#[test]
fn a_device_that_is_gone_is_reported() {
    let p = props(vec![("audio_device", text("mic-1"))]);
    let failed = LocalInputBuilder.build("b", &p, "videoconvert", &camera());
    assert!(matches!(
        failed,
        Err(BlockBuildError::InvalidConfiguration(s))
            if s == "Audio/Source device 'mic-1' not found — refresh /api/discovery/devices and pick a current id"
    ));
    // What is not captured is not looked for.
    let p = props(vec![
        ("stream_mode", text("video")),
        ("audio_device", text("mic-1")),
    ]);
    assert!(LocalInputBuilder
        .build("b", &p, "videoconvert", &camera())
        .is_ok());
    assert!(matches!(
        make_source(MediaType::Generic, "cam-1", "e", "f", &camera()),
        Err(BlockBuildError::InvalidConfiguration(s)) if s.contains("Generic")
    ));
}

#[test]
fn a_local_input_shows_what_it_captures() {
    let pads = LocalInputBuilder
        .get_external_pads(&props(vec![("stream_mode", text("audio"))]))
        .unwrap();
    assert_eq!(pads.outputs.len(), 1);
    assert_eq!(pads.outputs[0].internal_element_id, "audiocapsfilter");
    let blocks = devicesrc::get_blocks();
    assert_eq!(blocks[0].id, "builtin.local_input");
    assert!(matches!(
        blocks[0].exposed_properties[1].property_type,
        PropertyType::VideoDevice
    ));
}

// --- Audio bridge ---

fn limits() -> BridgeLimits {
    BridgeLimits {
        default_target_latency_ms: 60,
        min_target_latency_ms: 20,
        max_target_latency_ms: 500,
        default_max_latency_ms: 800,
        max_max_latency_ms: 2000,
        default_rate_change_percent: 5.0f64.to_bits(),
        max_rate_change_percent: "10".to_string(),
    }
}

#[test]
fn a_bridge_needs_a_channel() {
    let none = AudioBridgeOutputBuilder.build("b", &props(vec![]), CapsSpec::new("audio/x-raw"));
    assert!(matches!(
        none,
        Err(BlockBuildError::InvalidConfiguration(s)) if s == "channel name is required"
    ));
    let blank = props(vec![("channel", text("  "))]);
    assert!(AudioBridgeInputBuilder
        .build("b", &blank, 0, true, &limits())
        .is_err());
    let missing = AudioBridgeInputBuilder.build("b", &blank, 0, false, &limits());
    assert!(matches!(
        missing,
        Err(BlockBuildError::ElementCreation(s))
            if s == "scaletempo (gst-plugins-good) is not installed"
    ));
}

#[test]
fn both_ends_of_a_bridge_meet_on_the_trimmed_channel() {
    let p = props(vec![("channel", text(" talk "))]);
    let output = AudioBridgeOutputBuilder
        .build("o", &p, CapsSpec::new("audio/x-raw"))
        .ok()
        .expect("built");
    assert!(matches!(
        setting(&output, "o:sink", "channel"),
        SettingValue::Text(s) if s == "talk"
    ));
    assert_eq!(
        links(&output),
        vec![
            "o:convert.src > o:resample.sink",
            "o:resample.src > o:caps.sink",
            "o:caps.src > o:sink.sink",
        ]
    );
    let input = AudioBridgeInputBuilder
        .build("i", &p, 5, true, &limits())
        .ok()
        .expect("built");
    assert!(matches!(
        setting(&input, "i:bridge", "channel"),
        SettingValue::Text(s) if s == "talk"
    ));
}

#[test]
fn latencies_are_kept_in_range() {
    let p = props(vec![
        ("channel", text("talk")),
        ("target_latency_ms", PropertyValue::Int(5)),
        ("max_latency_ms", PropertyValue::UInt(9000)),
        ("max_rate_change_percent", PropertyValue::Int(7)),
    ]);
    let input = AudioBridgeInputBuilder
        .build("i", &p, 7, true, &limits())
        .ok()
        .expect("built");
    assert!(matches!(
        setting(&input, "i:bridge", "target-latency"),
        SettingValue::U32(20)
    ));
    assert!(matches!(
        setting(&input, "i:bridge", "max-latency"),
        SettingValue::U32(2000)
    ));
    assert!(matches!(
        setting(&input, "i:bridge", "max-rate-change"),
        SettingValue::Float(7)
    ));
    assert_eq!(
        AudioBridgeInputBuilder.rate_change(&p, &limits()),
        Number::Signed(7)
    );
    let unset = props(vec![("channel", text("talk"))]);
    assert_eq!(
        AudioBridgeInputBuilder.rate_change(&unset, &limits()),
        Number::Fraction(5.0f64.to_bits())
    );
    assert_eq!(audio_bridge::uint(&p, "target_latency_ms", 1), 5);
    assert_eq!(
        audio_bridge::uint(&props(vec![("n", PropertyValue::Int(-1))]), "n", 9),
        9
    );
}

#[test]
fn bridge_definitions_state_their_range() {
    let blocks = audio_bridge::get_blocks("out", "in", &limits());
    assert_eq!(blocks[0].id, "out");
    assert_eq!(blocks[1].id, "in");
    let target = &blocks[1].exposed_properties[1];
    assert!(target.description.contains("20-500 ms."));
    assert!(blocks[1].exposed_properties[2].description.contains("0-10 %."));
    assert_eq!(target.mapping.element_id, "bridge");
}
