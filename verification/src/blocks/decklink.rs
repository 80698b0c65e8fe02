//! Capture from and playback to a DeckLink card.
//!
//! Either block carries video, audio or both. The card needs the video side in
//! any case: where only audio is wanted, captured video is thrown away, and
//! played video is black.

use crate::blocks::definition;
use crate::blocks::definition::{
    BlockDefinition, Choice, DefinitionInfo, EnumValue, ExternalPad, ExternalPads, PadInfo,
    PadsInfo, PropertyType, StreamMode, TypeInfo,
};
use crate::blocks::plan;
use crate::blocks::plan::{
    BlockPlan, CapsField, CapsFieldInfo, CapsInfo, CapsSpec, ElementPlan, ElementSpec, PlanInfo,
    SettingInfo, SettingValue,
};
use crate::properties;
use crate::properties::{Properties, PropertyMap, PropertyTree, PropertyValue};
use crate::text;
use vstd::prelude::*;

verus! {

/// The persistent id that stands for none: the device number decides.
pub const NO_PERSISTENT_ID: i64 = -1;

/// What the card is set to play where only audio is played.
pub const AUDIO_ONLY_INTERNAL_MODE: &'static str = "1080p25";

pub const AUDIO_ONLY_INTERNAL_FORMAT: &'static str = "8bit-yuv";

pub struct DeckLinkInputBuilder;

pub struct DeckLinkOutputBuilder;

// ---------------------------------------------------------------------------
// Properties
// ---------------------------------------------------------------------------

/// The number of the card.
pub open spec fn device_number(p: PropertyMap) -> i32 {
    match properties::unsigned_from(p, "device_number"@, 0) {
        Some(n) => n as i32,
        None => 0,
    }
}

fn read_device_number(props: &Properties) -> (r: i32)
    ensures
        r == device_number(props@),
{
    match props.unsigned_from("device_number", 0) {
        Some(n) => n as i32,
        None => 0,
    }
}

/// The id that a card keeps, where one is set.
pub open spec fn persistent_id(p: PropertyMap) -> i64 {
    match text::lookup(p, "persistent_id"@) {
        Some(PropertyTree::Int(n)) => n,
        Some(PropertyTree::UInt(n)) => n as i64,
        _ => NO_PERSISTENT_ID,
    }
}

fn read_persistent_id(props: &Properties) -> (r: i64)
    ensures
        r == persistent_id(props@),
{
    match props.get("persistent_id") {
        Some(PropertyValue::Int(n)) => *n,
        Some(PropertyValue::UInt(n)) => *n as i64,
        _ => NO_PERSISTENT_ID,
    }
}

/// How many channels are captured, as the card takes it: a text as it is, a
/// number above zero in digits, else two.
pub open spec fn audio_channels(p: PropertyMap) -> Seq<char> {
    match text::lookup(p, "audio_channels"@) {
        Some(PropertyTree::Text(s)) => s,
        Some(PropertyTree::UInt(n)) => text::decimal(n as nat),
        Some(PropertyTree::Int(n)) => if n > 0 {
            text::decimal_int(n as int)
        } else {
            "2"@
        },
        _ => "2"@,
    }
}

fn read_audio_channels(props: &Properties) -> (r: String)
    ensures
        r@ == audio_channels(props@),
{
    match props.get("audio_channels") {
        Some(PropertyValue::String(s)) => s.clone(),
        Some(PropertyValue::UInt(n)) => text::u64_text(*n),
        Some(PropertyValue::Int(n)) => if *n > 0 {
            text::i64_text(*n)
        } else {
            "2".to_owned()
        },
        _ => "2".to_owned(),
    }
}

/// The media that a block carries.
pub open spec fn mode_under(p: PropertyMap) -> StreamMode {
    definition::stream_mode_of(p, StreamMode::AudioVideo)
}

fn read_mode(props: &Properties) -> (r: StreamMode)
    ensures
        r == mode_under(props@),
{
    definition::read_stream_mode(props, StreamMode::AudioVideo)
}

// ---------------------------------------------------------------------------
// Capture
// ---------------------------------------------------------------------------

/// The pads of a block that captures.
pub open spec fn capture_pads(mode: StreamMode) -> PadsInfo {
    PadsInfo {
        inputs: Seq::empty(),
        outputs: definition::mode_pads(
            mode,
            "video_out"@,
            "decklinkvideosrc"@,
            "audio_out"@,
            "decklinkaudiosrc"@,
            "src"@,
        ),
    }
}

fn make_capture_pads(mode: StreamMode) -> (r: ExternalPads)
    ensures
        r@ == capture_pads(mode),
{
    let inputs: Vec<ExternalPad> = Vec::new();
    let outputs = definition::pads_for_mode(
        mode,
        "video_out",
        "decklinkvideosrc",
        "audio_out",
        "decklinkaudiosrc",
        "src",
    );
    assert(definition::pad_infos(inputs@) =~= Seq::<PadInfo>::empty());
    ExternalPads { inputs, outputs }
}

/// Captures video.
pub open spec fn video_source(instance: Seq<char>, p: PropertyMap) -> ElementPlan {
    plan::plain_element(
        plan::member(instance, "decklinkvideosrc"@),
        "decklinkvideosrc"@,
    ).with("device-number"@, SettingInfo::I32(device_number(p))).with(
        "persistent-id"@,
        SettingInfo::I64(persistent_id(p)),
    ).with("mode"@, SettingInfo::Parsed(properties::text_or(p, "mode"@, "auto"@))).with(
        "connection"@,
        SettingInfo::Parsed(properties::text_or(p, "connection"@, "auto"@)),
    ).with(
        "video-format"@,
        SettingInfo::Parsed(properties::text_or(p, "video_format"@, "auto"@)),
    ).with("profile"@, SettingInfo::Parsed(properties::text_or(p, "profile"@, "default"@))).with(
        "drop-no-signal-frames"@,
        SettingInfo::Bool(properties::bool_or(p, "drop_no_signal_frames"@, false)),
    ).with("do-timestamp"@, SettingInfo::Bool(properties::bool_or(p, "do_timestamp"@, false)))
}

fn make_video_source(instance_id: &str, props: &Properties) -> (r: ElementSpec)
    ensures
        r@ == video_source(instance_id@, props@),
{
    let id = plan::member_id(instance_id, "decklinkvideosrc");
    let mut e = ElementSpec::new(id.as_str(), "decklinkvideosrc");
    e.set("device-number", SettingValue::I32(read_device_number(props)));
    e.set("persistent-id", SettingValue::I64(read_persistent_id(props)));
    e.set("mode", SettingValue::Parsed(props.text_or("mode", "auto")));
    e.set("connection", SettingValue::Parsed(props.text_or("connection", "auto")));
    e.set("video-format", SettingValue::Parsed(props.text_or("video_format", "auto")));
    e.set("profile", SettingValue::Parsed(props.text_or("profile", "default")));
    e.set(
        "drop-no-signal-frames",
        SettingValue::Bool(props.bool_or("drop_no_signal_frames", false)),
    );
    e.set("do-timestamp", SettingValue::Bool(props.bool_or("do_timestamp", false)));
    e
}

/// Throws captured video away.
pub open spec fn video_drain(instance: Seq<char>) -> ElementPlan {
    plan::plain_element(plan::member(instance, "video_drain"@), "fakesink"@).labelled(
        "fakesink (video_drain)"@,
    ).with("sync"@, SettingInfo::Bool(false)).with("async"@, SettingInfo::Bool(false)).with(
        "silent"@,
        SettingInfo::Bool(true),
    )
}

fn make_video_drain(instance_id: &str) -> (r: ElementSpec)
    ensures
        r@ == video_drain(instance_id@),
{
    let id = plan::member_id(instance_id, "video_drain");
    let mut e = ElementSpec::new(id.as_str(), "fakesink");
    e.label("fakesink (video_drain)");
    e.set("sync", SettingValue::Bool(false));
    e.set("async", SettingValue::Bool(false));
    e.set("silent", SettingValue::Bool(true));
    e
}

/// Captures audio.
pub open spec fn audio_source(instance: Seq<char>, p: PropertyMap) -> ElementPlan {
    plan::plain_element(
        plan::member(instance, "decklinkaudiosrc"@),
        "decklinkaudiosrc"@,
    ).with("device-number"@, SettingInfo::I32(device_number(p))).with(
        "persistent-id"@,
        SettingInfo::I64(persistent_id(p)),
    ).with(
        "connection"@,
        SettingInfo::Parsed(properties::text_or(p, "audio_connection"@, "auto"@)),
    ).with("channels"@, SettingInfo::Parsed(audio_channels(p))).with(
        "do-timestamp"@,
        SettingInfo::Bool(properties::bool_or(p, "do_timestamp"@, false)),
    )
}

fn make_audio_source(instance_id: &str, props: &Properties) -> (r: ElementSpec)
    ensures
        r@ == audio_source(instance_id@, props@),
{
    let id = plan::member_id(instance_id, "decklinkaudiosrc");
    let mut e = ElementSpec::new(id.as_str(), "decklinkaudiosrc");
    e.set("device-number", SettingValue::I32(read_device_number(props)));
    e.set("persistent-id", SettingValue::I64(read_persistent_id(props)));
    e.set("connection", SettingValue::Parsed(props.text_or("audio_connection", "auto")));
    e.set("channels", SettingValue::Parsed(read_audio_channels(props)));
    e.set("do-timestamp", SettingValue::Bool(props.bool_or("do_timestamp", false)));
    e
}

/// What a block that captures is built of.
pub open spec fn capture_plan(instance: Seq<char>, p: PropertyMap) -> PlanInfo {
    let mode = mode_under(p);
    let source = plan::empty_plan().add(video_source(instance, p));
    let video = if mode.video() {
        source
    } else {
        source.add(video_drain(instance)).link(
            plan::member(instance, "decklinkvideosrc"@),
            "src"@,
            plan::member(instance, "video_drain"@),
            "sink"@,
        )
    };
    if mode.audio() {
        video.add(audio_source(instance, p))
    } else {
        video
    }
}

impl DeckLinkInputBuilder {
    /// The pads that the block shows with the given properties.
    pub fn get_external_pads(&self, props: &Properties) -> (r: Option<ExternalPads>)
        ensures
            r matches Some(pads) && pads@ == capture_pads(mode_under(props@)),
    {
        Some(make_capture_pads(read_mode(props)))
    }

    /// What the block is built of with the given properties.
    pub fn build(&self, instance_id: &str, props: &Properties) -> (r: BlockPlan)
        ensures
            r@ == capture_plan(instance_id@, props@),
    {
        let mode = read_mode(props);
        let mut parts = BlockPlan::new();
        parts.add(make_video_source(instance_id, props));
        if !mode.has_video() {
            let source = plan::member_id(instance_id, "decklinkvideosrc");
            let drain = plan::member_id(instance_id, "video_drain");
            parts.add(make_video_drain(instance_id));
            parts.link(source.as_str(), "src", drain.as_str(), "sink");
        }
        if mode.has_audio() {
            parts.add(make_audio_source(instance_id, props));
        }
        parts
    }
}

// ---------------------------------------------------------------------------
// Playback
// ---------------------------------------------------------------------------

/// The pads of a block that plays.
pub open spec fn playback_pads(mode: StreamMode) -> PadsInfo {
    PadsInfo {
        inputs: definition::mode_pads(
            mode,
            "video_in"@,
            "decklinkvideosink"@,
            "audio_in"@,
            "decklinkaudiosink"@,
            "sink"@,
        ),
        outputs: Seq::empty(),
    }
}

fn make_playback_pads(mode: StreamMode) -> (r: ExternalPads)
    ensures
        r@ == playback_pads(mode),
{
    let outputs: Vec<ExternalPad> = Vec::new();
    let inputs = definition::pads_for_mode(
        mode,
        "video_in",
        "decklinkvideosink",
        "audio_in",
        "decklinkaudiosink",
        "sink",
    );
    assert(definition::pad_infos(outputs@) =~= Seq::<PadInfo>::empty());
    ExternalPads { inputs, outputs }
}

/// Plays video. Where only audio is played, what the operator set for video
/// does not count.
pub open spec fn video_sink(instance: Seq<char>, p: PropertyMap) -> ElementPlan {
    let shown = mode_under(p).video();
    plan::plain_element(
        plan::member(instance, "decklinkvideosink"@),
        "decklinkvideosink"@,
    ).with("device-number"@, SettingInfo::I32(device_number(p))).with(
        "mode"@,
        SettingInfo::Parsed(
            if shown {
                properties::text_or(p, "mode"@, "1080p25"@)
            } else {
                AUDIO_ONLY_INTERNAL_MODE@
            },
        ),
    ).with(
        "video-format"@,
        SettingInfo::Parsed(
            if shown {
                properties::text_or(p, "video_format"@, "8bit-yuv"@)
            } else {
                AUDIO_ONLY_INTERNAL_FORMAT@
            },
        ),
    )
}

fn make_video_sink(instance_id: &str, props: &Properties) -> (r: ElementSpec)
    ensures
        r@ == video_sink(instance_id@, props@),
{
    let id = plan::member_id(instance_id, "decklinkvideosink");
    let shown = read_mode(props).has_video();
    let mode = if shown {
        props.text_or("mode", "1080p25")
    } else {
        AUDIO_ONLY_INTERNAL_MODE.to_owned()
    };
    let format = if shown {
        props.text_or("video_format", "8bit-yuv")
    } else {
        AUDIO_ONLY_INTERNAL_FORMAT.to_owned()
    };
    let mut e = ElementSpec::new(id.as_str(), "decklinkvideosink");
    e.set("device-number", SettingValue::I32(read_device_number(props)));
    e.set("mode", SettingValue::Parsed(mode));
    e.set("video-format", SettingValue::Parsed(format));
    e
}

/// Black frames as the card is set to play them where only audio is played.
pub open spec fn filler_caps() -> CapsInfo {
    plan::any_of("video/x-raw"@).field("format"@, CapsFieldInfo::Text("UYVY"@)).field(
        "width"@,
        CapsFieldInfo::Int(1920),
    ).field("height"@, CapsFieldInfo::Int(1080)).field(
        "framerate"@,
        CapsFieldInfo::Fraction(25, 1),
    ).field("interlace-mode"@, CapsFieldInfo::Text("progressive"@))
}

fn make_filler_caps() -> (r: CapsSpec)
    ensures
        r@ == filler_caps(),
{
    let mut caps = CapsSpec::new("video/x-raw");
    caps.field("format", CapsField::Text("UYVY".to_owned()));
    caps.field("width", CapsField::Int(1920));
    caps.field("height", CapsField::Int(1080));
    caps.field("framerate", CapsField::Fraction(25, 1));
    caps.field("interlace-mode", CapsField::Text("progressive".to_owned()));
    caps
}

/// The plan with black frames for the card.
pub open spec fn with_filler(base: PlanInfo, instance: Seq<char>) -> PlanInfo {
    let filler = plan::member(instance, "video_filler"@);
    let filter = plan::member(instance, "video_filler_caps"@);
    base.add(
        plan::plain_element(filler, "videotestsrc"@).labelled("videotestsrc (filler)"@).with(
            "pattern"@,
            SettingInfo::Parsed("black"@),
        ).with("is-live"@, SettingInfo::Bool(true)),
    ).add(
        plan::plain_element(filter, "capsfilter"@).labelled("capsfilter (filler)"@).with(
            "caps"@,
            SettingInfo::Caps(filler_caps()),
        ),
    ).link(filler, "src"@, filter, "sink"@).link(
        filter,
        "src"@,
        plan::member(instance, "decklinkvideosink"@),
        "sink"@,
    )
}

fn add_filler(parts: &mut BlockPlan, instance_id: &str)
    ensures
        final(parts)@ == with_filler(old(parts)@, instance_id@),
{
    let filler = plan::member_id(instance_id, "video_filler");
    let filter = plan::member_id(instance_id, "video_filler_caps");
    let sink = plan::member_id(instance_id, "decklinkvideosink");
    let mut e = ElementSpec::new(filler.as_str(), "videotestsrc");
    e.label("videotestsrc (filler)");
    e.set("pattern", SettingValue::Parsed("black".to_owned()));
    e.set("is-live", SettingValue::Bool(true));
    parts.add(e);
    let mut e = ElementSpec::new(filter.as_str(), "capsfilter");
    e.label("capsfilter (filler)");
    e.set("caps", SettingValue::Caps(make_filler_caps()));
    parts.add(e);
    parts.link(filler.as_str(), "src", filter.as_str(), "sink");
    parts.link(filter.as_str(), "src", sink.as_str(), "sink");
}

/// Plays audio.
pub open spec fn audio_sink(instance: Seq<char>, p: PropertyMap) -> ElementPlan {
    plan::plain_element(
        plan::member(instance, "decklinkaudiosink"@),
        "decklinkaudiosink"@,
    ).with("device-number"@, SettingInfo::I32(device_number(p)))
}

/// What a block that plays is built of.
pub open spec fn playback_plan(instance: Seq<char>, p: PropertyMap) -> PlanInfo {
    let mode = mode_under(p);
    let sink = plan::empty_plan().add(video_sink(instance, p));
    let video = if mode.video() {
        sink
    } else {
        with_filler(sink, instance)
    };
    if mode.audio() {
        video.add(audio_sink(instance, p))
    } else {
        video
    }
}

impl DeckLinkOutputBuilder {
    /// The pads that the block shows with the given properties.
    pub fn get_external_pads(&self, props: &Properties) -> (r: Option<ExternalPads>)
        ensures
            r matches Some(pads) && pads@ == playback_pads(mode_under(props@)),
    {
        Some(make_playback_pads(read_mode(props)))
    }

    /// What the block is built of with the given properties.
    pub fn build(&self, instance_id: &str, props: &Properties) -> (r: BlockPlan)
        ensures
            r@ == playback_plan(instance_id@, props@),
    {
        let mode = read_mode(props);
        let mut parts = BlockPlan::new();
        parts.add(make_video_sink(instance_id, props));
        if !mode.has_video() {
            add_filler(&mut parts, instance_id);
        }
        if mode.has_audio() {
            let id = plan::member_id(instance_id, "decklinkaudiosink");
            let mut e = ElementSpec::new(id.as_str(), "decklinkaudiosink");
            e.set("device-number", SettingValue::I32(read_device_number(props)));
            parts.add(e);
        }
        parts
    }
}

// ---------------------------------------------------------------------------
// Laws
// ---------------------------------------------------------------------------

/// Whatever is captured, the card's video side is there, every connection is
/// between elements of the block, and every pad that the block shows is a pad
/// of one of them.
pub proof fn capture_is_connected(instance: Seq<char>, p: PropertyMap)
    ensures
        capture_plan(instance, p).links_hold(),
        capture_plan(instance, p).has_element(plan::member(instance, "decklinkvideosrc"@)),
        forall|i: int|
            0 <= i < capture_pads(mode_under(p)).outputs.len() ==> capture_plan(
                instance,
                p,
            ).has_element(
                plan::member(
                    instance,
                    (#[trigger] capture_pads(mode_under(p)).outputs[i]).internal_element_id,
                ),
            ),
{
    broadcast use {plan::adding_keeps, plan::linking_keeps};

    assert(plan::empty_plan().links_hold());
    let mode = mode_under(p);
    let all = capture_plan(instance, p);
    assert(mode.audio() ==> all.has_element(plan::member(instance, "decklinkaudiosrc"@)));
    assert forall|i: int| 0 <= i < capture_pads(mode).outputs.len() implies all.has_element(
        plan::member(instance, (#[trigger] capture_pads(mode).outputs[i]).internal_element_id),
    ) by {
        if i == 0 && mode.video() {
            assert(capture_pads(mode).outputs[i].internal_element_id == "decklinkvideosrc"@);
        } else {
            assert(capture_pads(mode).outputs[i].internal_element_id == "decklinkaudiosrc"@);
        }
    }
}

/// The same holds of what is played.
pub proof fn playback_is_connected(instance: Seq<char>, p: PropertyMap)
    ensures
        playback_plan(instance, p).links_hold(),
        playback_plan(instance, p).has_element(plan::member(instance, "decklinkvideosink"@)),
        forall|i: int|
            0 <= i < playback_pads(mode_under(p)).inputs.len() ==> playback_plan(
                instance,
                p,
            ).has_element(
                plan::member(
                    instance,
                    (#[trigger] playback_pads(mode_under(p)).inputs[i]).internal_element_id,
                ),
            ),
{
    broadcast use {plan::adding_keeps, plan::linking_keeps};

    assert(plan::empty_plan().links_hold());
    let mode = mode_under(p);
    let all = playback_plan(instance, p);
    assert(mode.audio() ==> all.has_element(plan::member(instance, "decklinkaudiosink"@)));
    assert forall|i: int| 0 <= i < playback_pads(mode).inputs.len() implies all.has_element(
        plan::member(instance, (#[trigger] playback_pads(mode).inputs[i]).internal_element_id),
    ) by {
        if i == 0 && mode.video() {
            assert(playback_pads(mode).inputs[i].internal_element_id == "decklinkvideosink"@);
        } else {
            assert(playback_pads(mode).inputs[i].internal_element_id == "decklinkaudiosink"@);
        }
    }
}

/// No two elements of the capture block have the same id.
pub proof fn capture_ids_differ(instance: Seq<char>, p: PropertyMap)
    ensures
        capture_plan(instance, p).ids_differ(),
{
    reveal_strlit("decklinkvideosrc");
    reveal_strlit("video_drain");
    reveal_strlit("decklinkaudiosrc");
    assert("decklinkvideosrc"@[8] == 'v' && "decklinkaudiosrc"@[8] == 'a');
    let names = match mode_under(p) {
        StreamMode::AudioVideo => seq!["decklinkvideosrc"@, "decklinkaudiosrc"@],
        StreamMode::Video => seq!["decklinkvideosrc"@],
        StreamMode::Audio => seq!["decklinkvideosrc"@, "video_drain"@, "decklinkaudiosrc"@],
    };
    plan::lemma_names_keep_ids_apart(capture_plan(instance, p), instance, names);
}

/// No two elements of the playback block have the same id.
pub proof fn playback_ids_differ(instance: Seq<char>, p: PropertyMap)
    ensures
        playback_plan(instance, p).ids_differ(),
{
    reveal_strlit("decklinkvideosink");
    reveal_strlit("video_filler");
    reveal_strlit("video_filler_caps");
    reveal_strlit("decklinkaudiosink");
    assert("decklinkvideosink"@[8] == 'v' && "decklinkaudiosink"@[8] == 'a');
    assert("video_filler_caps"@[0] == 'v' && "decklinkvideosink"@[0] == 'd');
    assert("decklinkaudiosink"@[0] == 'd');
    let names = match mode_under(p) {
        StreamMode::AudioVideo => seq!["decklinkvideosink"@, "decklinkaudiosink"@],
        StreamMode::Video => seq!["decklinkvideosink"@],
        StreamMode::Audio => seq![
            "decklinkvideosink"@,
            "video_filler"@,
            "video_filler_caps"@,
            "decklinkaudiosink"@,
        ],
    };
    plan::lemma_names_keep_ids_apart(playback_plan(instance, p), instance, names);
}

// ---------------------------------------------------------------------------
// Definitions
// ---------------------------------------------------------------------------

/// Resolutions and frame rates.
pub open spec fn video_modes() -> Seq<Choice> {
    definition::no_choice()
        .push(("auto"@, Some("Auto"@)))
        .push(("1080p2398"@, Some("1080p 23.98"@)))
        .push(("1080p24"@, Some("1080p 24"@)))
        .push(("1080p25"@, Some("1080p 25"@)))
        .push(("1080p2997"@, Some("1080p 29.97"@)))
        .push(("1080p30"@, Some("1080p 30"@)))
        .push(("1080p50"@, Some("1080p 50"@)))
        .push(("1080p5994"@, Some("1080p 59.94"@)))
        .push(("1080p60"@, Some("1080p 60"@)))
        .push(("1080i50"@, Some("1080i 50"@)))
        .push(("1080i5994"@, Some("1080i 59.94"@)))
        .push(("1080i60"@, Some("1080i 60"@)))
        .push(("720p50"@, Some("720p 50"@)))
        .push(("720p5994"@, Some("720p 59.94"@)))
        .push(("720p60"@, Some("720p 60"@)))
        .push(("2160p2398"@, Some("4K 23.98"@)))
        .push(("2160p24"@, Some("4K 24"@)))
        .push(("2160p25"@, Some("4K 25"@)))
        .push(("2160p2997"@, Some("4K 29.97"@)))
        .push(("2160p30"@, Some("4K 30"@)))
        .push(("2160p50"@, Some("4K 50"@)))
        .push(("2160p5994"@, Some("4K 59.94"@)))
        .push(("2160p60"@, Some("4K 60"@)))
}

fn video_modes_values() -> (r: Vec<EnumValue>)
    ensures
        definition::choices(r@) == video_modes(),
{
    let mut all = definition::no_values();
    definition::add_value(&mut all, "auto", "Auto");
    definition::add_value(&mut all, "1080p2398", "1080p 23.98");
    definition::add_value(&mut all, "1080p24", "1080p 24");
    definition::add_value(&mut all, "1080p25", "1080p 25");
    definition::add_value(&mut all, "1080p2997", "1080p 29.97");
    definition::add_value(&mut all, "1080p30", "1080p 30");
    definition::add_value(&mut all, "1080p50", "1080p 50");
    definition::add_value(&mut all, "1080p5994", "1080p 59.94");
    definition::add_value(&mut all, "1080p60", "1080p 60");
    definition::add_value(&mut all, "1080i50", "1080i 50");
    definition::add_value(&mut all, "1080i5994", "1080i 59.94");
    definition::add_value(&mut all, "1080i60", "1080i 60");
    definition::add_value(&mut all, "720p50", "720p 50");
    definition::add_value(&mut all, "720p5994", "720p 59.94");
    definition::add_value(&mut all, "720p60", "720p 60");
    definition::add_value(&mut all, "2160p2398", "4K 23.98");
    definition::add_value(&mut all, "2160p24", "4K 24");
    definition::add_value(&mut all, "2160p25", "4K 25");
    definition::add_value(&mut all, "2160p2997", "4K 29.97");
    definition::add_value(&mut all, "2160p30", "4K 30");
    definition::add_value(&mut all, "2160p50", "4K 50");
    definition::add_value(&mut all, "2160p5994", "4K 59.94");
    definition::add_value(&mut all, "2160p60", "4K 60");
    all
}

/// Which media a block carries.
pub open spec fn stream_modes() -> Seq<Choice> {
    definition::no_choice()
        .push(("audio_video"@, Some("Audio + Video"@)))
        .push(("video"@, Some("Video only"@)))
        .push(("audio"@, Some("Audio only"@)))
}

fn stream_modes_values() -> (r: Vec<EnumValue>)
    ensures
        definition::choices(r@) == stream_modes(),
{
    let mut all = definition::no_values();
    definition::add_value(&mut all, "audio_video", "Audio + Video");
    definition::add_value(&mut all, "video", "Video only");
    definition::add_value(&mut all, "audio", "Audio only");
    all
}

/// Where video comes in.
pub open spec fn connections() -> Seq<Choice> {
    definition::no_choice()
        .push(("auto"@, Some("Auto"@)))
        .push(("sdi"@, Some("SDI"@)))
        .push(("hdmi"@, Some("HDMI"@)))
        .push(("optical-sdi"@, Some("Optical SDI"@)))
        .push(("component"@, Some("Component"@)))
        .push(("composite"@, Some("Composite"@)))
        .push(("svideo"@, Some("S-Video"@)))
}

fn connections_values() -> (r: Vec<EnumValue>)
    ensures
        definition::choices(r@) == connections(),
{
    let mut all = definition::no_values();
    definition::add_value(&mut all, "auto", "Auto");
    definition::add_value(&mut all, "sdi", "SDI");
    definition::add_value(&mut all, "hdmi", "HDMI");
    definition::add_value(&mut all, "optical-sdi", "Optical SDI");
    definition::add_value(&mut all, "component", "Component");
    definition::add_value(&mut all, "composite", "Composite");
    definition::add_value(&mut all, "svideo", "S-Video");
    all
}

/// Where audio comes in.
pub open spec fn audio_connections() -> Seq<Choice> {
    definition::no_choice()
        .push(("auto"@, Some("Auto"@)))
        .push(("embedded"@, Some("Embedded (SDI/HDMI)"@)))
        .push(("aes"@, Some("AES/EBU"@)))
        .push(("analog"@, Some("Analog"@)))
        .push(("analog-xlr"@, Some("Analog (XLR)"@)))
        .push(("analog-rca"@, Some("Analog (RCA)"@)))
}

fn audio_connections_values() -> (r: Vec<EnumValue>)
    ensures
        definition::choices(r@) == audio_connections(),
{
    let mut all = definition::no_values();
    definition::add_value(&mut all, "auto", "Auto");
    definition::add_value(&mut all, "embedded", "Embedded (SDI/HDMI)");
    definition::add_value(&mut all, "aes", "AES/EBU");
    definition::add_value(&mut all, "analog", "Analog");
    definition::add_value(&mut all, "analog-xlr", "Analog (XLR)");
    definition::add_value(&mut all, "analog-rca", "Analog (RCA)");
    all
}

/// How many channels are captured.
pub open spec fn channel_counts() -> Seq<Choice> {
    definition::no_choice()
        .push(("2"@, Some("2 (Stereo)"@)))
        .push(("8"@, Some("8"@)))
        .push(("16"@, Some("16"@)))
        .push(("max"@, Some("Max (auto-detect)"@)))
}

fn channel_counts_values() -> (r: Vec<EnumValue>)
    ensures
        definition::choices(r@) == channel_counts(),
{
    let mut all = definition::no_values();
    definition::add_value(&mut all, "2", "2 (Stereo)");
    definition::add_value(&mut all, "8", "8");
    definition::add_value(&mut all, "16", "16");
    definition::add_value(&mut all, "max", "Max (auto-detect)");
    all
}

/// How the block that captures presents itself, given the pixel formats and
/// profiles that cards know.
pub open spec fn capture_definition(
    formats: Seq<Choice>,
    profiles: Seq<Choice>,
) -> DefinitionInfo {
    definition::built_in_block(
        "builtin.decklink_input"@,
        "DeckLink Input"@,
        "Captures video and/or audio from a Blackmagic DeckLink SDI/HDMI card. Outputs the card's native pixel and audio formats — no internal conversion. Use a downstream videoformat/audioformat block to convert if needed."@,
        "Inputs"@,
        capture_pads(StreamMode::AudioVideo),
        definition::plain_looks(Some("📹"@), 20, 15),
    ).property(
        definition::block_property(
            "stream_mode"@,
            "Stream Mode"@,
            "Which media tracks to expose: video only, audio only, or both. (decklinkvideosrc is always created internally — required by the DeckLink plugin even in audio-only mode.)"@,
            TypeInfo::OneOf(stream_modes()),
            PropertyTree::Text("audio_video"@),
        ),
    ).property(
        definition::block_property(
            "device_number"@,
            "Device Number"@,
            "DeckLink device number (0-based index for multi-card systems)"@,
            TypeInfo::UInt,
            PropertyTree::UInt(0),
        ),
    ).property(
        definition::block_property(
            "mode"@,
            "Video Mode"@,
            "Video mode (resolution and framerate)"@,
            TypeInfo::OneOf(video_modes()),
            PropertyTree::Text("auto"@),
        ),
    ).property(
        definition::block_property(
            "connection"@,
            "Video Connection"@,
            "Video input connection type"@,
            TypeInfo::OneOf(connections()),
            PropertyTree::Text("auto"@),
        ),
    ).property(
        definition::block_property(
            "video_format"@,
            "Video Format"@,
            "Pixel format the card delivers. Native formats only — no conversion is performed. 'auto' lets the plugin pick based on mode (typically 8bit-yuv); 10bit-yuv (v210) is the broadcast-grade choice."@,
            TypeInfo::OneOf(formats),
            PropertyTree::Text("auto"@),
        ),
    ).property(
        definition::block_property(
            "drop_no_signal_frames"@,
            "Drop No-Signal Frames"@,
            "Drop frames the card flags as having no input signal instead of forwarding black/test-pattern downstream. Recommended for ingest so the encoder doesn't ship filler over SRT when the source is unplugged."@,
            TypeInfo::Bool,
            PropertyTree::Bool(false),
        ),
    ).property(
        definition::block_property(
            "profile"@,
            "Sub-Device Profile"@,
            "Sub-device profile for cards that support multiple (Quad 2, Duo 2, 8K Pro). 'default' keeps whatever profile is configured in Desktop Video Setup. Setting a profile from here lets the flow control sub-device layout without requiring a manual GUI change on the host."@,
            TypeInfo::OneOf(profiles),
            PropertyTree::Text("default"@),
        ),
    ).property(
        definition::block_property(
            "persistent_id"@,
            "Persistent ID"@,
            "DeckLink persistent device ID — stable across reboots, profile changes, and PCIe re-enumeration. Higher priority than 'Device Number' when set to a non-default value. Use -1 (default) to fall back to device-number selection."@,
            TypeInfo::Int,
            PropertyTree::Int(NO_PERSISTENT_ID),
        ),
    ).property(
        definition::block_property(
            "do_timestamp"@,
            "Apply Pipeline Clock to Buffers"@,
            "When enabled, the source applies the pipeline clock to each buffer's PTS at capture. Required for absolute-timestamp setups (e.g. TAI pipeline clock + EFP/SRT 64-bit absolute timestamps). Default off keeps GStreamer's default behaviour where the source's own stream-time is used."@,
            TypeInfo::Bool,
            PropertyTree::Bool(false),
        ),
    ).property(
        definition::block_property(
            "audio_connection"@,
            "Audio Connection"@,
            "Audio input connection type. Only used when audio is exposed."@,
            TypeInfo::OneOf(audio_connections()),
            PropertyTree::Text("auto"@),
        ),
    ).property(
        definition::block_property(
            "audio_channels"@,
            "Audio Channels"@,
            "Number of audio channels to capture (48 kHz, S16LE/S32LE — chosen by downstream caps negotiation)."@,
            TypeInfo::OneOf(channel_counts()),
            PropertyTree::Text("2"@),
        ),
    )
}

/// How the block that captures presents itself.
pub fn decklink_input_definition(formats: &Vec<EnumValue>, profiles: &Vec<EnumValue>) -> (r:
    BlockDefinition)
    ensures
        r@ == capture_definition(definition::choices(formats@), definition::choices(profiles@)),
{
    let mut d = BlockDefinition::built_in(
        "builtin.decklink_input",
        "DeckLink Input",
        "Captures video and/or audio from a Blackmagic DeckLink SDI/HDMI card. Outputs the card's native pixel and audio formats — no internal conversion. Use a downstream videoformat/audioformat block to convert if needed.",
        "Inputs",
        make_capture_pads(StreamMode::AudioVideo),
        definition::plain_ui(Some("📹"), 20, 15),
    );
    d.property(
        definition::for_block(
            "stream_mode",
            "Stream Mode",
            "Which media tracks to expose: video only, audio only, or both. (decklinkvideosrc is always created internally — required by the DeckLink plugin even in audio-only mode.)",
            PropertyType::Enum { values: stream_modes_values() },
            PropertyValue::String("audio_video".to_owned()),
        ),
    );
    d.property(
        definition::for_block(
            "device_number",
            "Device Number",
            "DeckLink device number (0-based index for multi-card systems)",
            PropertyType::UInt,
            PropertyValue::UInt(0),
        ),
    );
    d.property(
        definition::for_block(
            "mode",
            "Video Mode",
            "Video mode (resolution and framerate)",
            PropertyType::Enum { values: video_modes_values() },
            PropertyValue::String("auto".to_owned()),
        ),
    );
    d.property(
        definition::for_block(
            "connection",
            "Video Connection",
            "Video input connection type",
            PropertyType::Enum { values: connections_values() },
            PropertyValue::String("auto".to_owned()),
        ),
    );
    d.property(
        definition::for_block(
            "video_format",
            "Video Format",
            "Pixel format the card delivers. Native formats only — no conversion is performed. 'auto' lets the plugin pick based on mode (typically 8bit-yuv); 10bit-yuv (v210) is the broadcast-grade choice.",
            PropertyType::Enum { values: definition::copy_values(formats) },
            PropertyValue::String("auto".to_owned()),
        ),
    );
    d.property(
        definition::for_block(
            "drop_no_signal_frames",
            "Drop No-Signal Frames",
            "Drop frames the card flags as having no input signal instead of forwarding black/test-pattern downstream. Recommended for ingest so the encoder doesn't ship filler over SRT when the source is unplugged.",
            PropertyType::Bool,
            PropertyValue::Bool(false),
        ),
    );
    d.property(
        definition::for_block(
            "profile",
            "Sub-Device Profile",
            "Sub-device profile for cards that support multiple (Quad 2, Duo 2, 8K Pro). 'default' keeps whatever profile is configured in Desktop Video Setup. Setting a profile from here lets the flow control sub-device layout without requiring a manual GUI change on the host.",
            PropertyType::Enum { values: definition::copy_values(profiles) },
            PropertyValue::String("default".to_owned()),
        ),
    );
    d.property(
        definition::for_block(
            "persistent_id",
            "Persistent ID",
            "DeckLink persistent device ID — stable across reboots, profile changes, and PCIe re-enumeration. Higher priority than 'Device Number' when set to a non-default value. Use -1 (default) to fall back to device-number selection.",
            PropertyType::Int,
            PropertyValue::Int(NO_PERSISTENT_ID),
        ),
    );
    d.property(
        definition::for_block(
            "do_timestamp",
            "Apply Pipeline Clock to Buffers",
            "When enabled, the source applies the pipeline clock to each buffer's PTS at capture. Required for absolute-timestamp setups (e.g. TAI pipeline clock + EFP/SRT 64-bit absolute timestamps). Default off keeps GStreamer's default behaviour where the source's own stream-time is used.",
            PropertyType::Bool,
            PropertyValue::Bool(false),
        ),
    );
    d.property(
        definition::for_block(
            "audio_connection",
            "Audio Connection",
            "Audio input connection type. Only used when audio is exposed.",
            PropertyType::Enum { values: audio_connections_values() },
            PropertyValue::String("auto".to_owned()),
        ),
    );
    d.property(
        definition::for_block(
            "audio_channels",
            "Audio Channels",
            "Number of audio channels to capture (48 kHz, S16LE/S32LE — chosen by downstream caps negotiation).",
            PropertyType::Enum { values: channel_counts_values() },
            PropertyValue::String("2".to_owned()),
        ),
    );
    d
}

/// How the block that plays presents itself.
pub open spec fn playback_definition(formats: Seq<Choice>) -> DefinitionInfo {
    definition::built_in_block(
        "builtin.decklink_output"@,
        "DeckLink Output"@,
        "Outputs video and/or audio to a Blackmagic DeckLink SDI/HDMI card. Accepts the card's native pixel and audio formats only — no internal conversion. In audio-only mode the videosink is internally driven with black frames so it can reach PLAYING."@,
        "Outputs"@,
        playback_pads(StreamMode::AudioVideo),
        definition::plain_looks(Some("📺"@), 20, 15),
    ).property(
        definition::block_property(
            "stream_mode"@,
            "Stream Mode"@,
            "Which media tracks to expose: video only, audio only, or both. (decklinkvideosink is always created internally — required by the DeckLink plugin even in audio-only mode.)"@,
            TypeInfo::OneOf(stream_modes()),
            PropertyTree::Text("audio_video"@),
        ),
    ).property(
        definition::block_property(
            "device_number"@,
            "Device Number"@,
            "DeckLink device number (0-based index for multi-card systems)"@,
            TypeInfo::UInt,
            PropertyTree::UInt(0),
        ),
    ).property(
        definition::block_property(
            "mode"@,
            "Video Mode"@,
            "Output video mode (resolution and framerate). Ignored in audio-only mode."@,
            TypeInfo::OneOf(video_modes()),
            PropertyTree::Text("1080p25"@),
        ),
    ).property(
        definition::block_property(
            "video_format"@,
            "Video Format"@,
            "Pixel format the card expects. Native formats only — no conversion is performed; upstream must deliver this exact format. Ignored in audio-only mode."@,
            TypeInfo::OneOf(formats),
            PropertyTree::Text("8bit-yuv"@),
        ),
    )
}

/// How the block that plays presents itself.
pub fn decklink_output_definition(formats: &Vec<EnumValue>) -> (r: BlockDefinition)
    ensures
        r@ == playback_definition(definition::choices(formats@)),
{
    let mut d = BlockDefinition::built_in(
        "builtin.decklink_output",
        "DeckLink Output",
        "Outputs video and/or audio to a Blackmagic DeckLink SDI/HDMI card. Accepts the card's native pixel and audio formats only — no internal conversion. In audio-only mode the videosink is internally driven with black frames so it can reach PLAYING.",
        "Outputs",
        make_playback_pads(StreamMode::AudioVideo),
        definition::plain_ui(Some("📺"), 20, 15),
    );
    d.property(
        definition::for_block(
            "stream_mode",
            "Stream Mode",
            "Which media tracks to expose: video only, audio only, or both. (decklinkvideosink is always created internally — required by the DeckLink plugin even in audio-only mode.)",
            PropertyType::Enum { values: stream_modes_values() },
            PropertyValue::String("audio_video".to_owned()),
        ),
    );
    d.property(
        definition::for_block(
            "device_number",
            "Device Number",
            "DeckLink device number (0-based index for multi-card systems)",
            PropertyType::UInt,
            PropertyValue::UInt(0),
        ),
    );
    d.property(
        definition::for_block(
            "mode",
            "Video Mode",
            "Output video mode (resolution and framerate). Ignored in audio-only mode.",
            PropertyType::Enum { values: video_modes_values() },
            PropertyValue::String("1080p25".to_owned()),
        ),
    );
    d.property(
        definition::for_block(
            "video_format",
            "Video Format",
            "Pixel format the card expects. Native formats only — no conversion is performed; upstream must deliver this exact format. Ignored in audio-only mode.",
            PropertyType::Enum { values: definition::copy_values(formats) },
            PropertyValue::String("8bit-yuv".to_owned()),
        ),
    );
    d
}

/// The blocks of this kind.
pub fn get_blocks(formats: &Vec<EnumValue>, profiles: &Vec<EnumValue>) -> (r: Vec<BlockDefinition>)
    ensures
        definition::definition_infos(r@) == seq![
            capture_definition(definition::choices(formats@), definition::choices(profiles@)),
            playback_definition(definition::choices(formats@)),
        ],
{
    definition::both(
        decklink_input_definition(formats, profiles),
        decklink_output_definition(formats),
    )
}

} // verus!
