//! Local input: video and audio captured from devices of the host.
//!
//! ```text
//! videosrc → videoconvert → videocapsfilter
//! audiosrc → audioconvert → audioresample → audiocapsfilter
//! ```
//!
//! A source is made by the device that was picked, or by the host's default where
//! none was. What it delivers is converted to raw media, so that the blocks behind
//! this one see a stable format.

use crate::blocks::definition;
use crate::blocks::definition::{
    BlockDefinition, Choice, DefinitionInfo, EnumValue, ExternalPad, ExternalPads, MediaType,
    PadInfo, PadsInfo, PropertyType, StreamMode, TypeInfo,
};
use crate::blocks::plan;
use crate::blocks::plan::{
    BlockBuildError, BlockPlan, BuildErrorInfo, CapsSpec, ElementPlan, ElementSpec, PlanInfo,
    Recipe, SettingInfo, SettingValue,
};
use crate::properties;
use crate::properties::{Properties, PropertyMap, PropertyTree, PropertyValue};
use crate::text;
use vstd::prelude::*;

verus! {

/// Local input block builder.
pub struct LocalInputBuilder;

/// A capture device that the host has at the moment.
pub struct LocalDevice {
    pub id: String,
    pub display_name: String,
}

/// The devices: ids and the names that they show.
pub open spec fn devices_of(v: Seq<LocalDevice>) -> Seq<(Seq<char>, Seq<char>)> {
    v.map_values(|d: LocalDevice| (d.id@, d.display_name@))
}

/// The name that the device with an id shows.
fn device_name(devices: &Vec<LocalDevice>, id: &str) -> (r: Option<String>)
    ensures
        r is Some == text::lookup(devices_of(devices@), id@) is Some,
        r matches Some(name) ==> text::lookup(devices_of(devices@), id@) == Some(name@),
{
    let ghost all = devices_of(devices@);
    let mut i: usize = 0;
    proof {
        assert(all.skip(0) =~= all);
    }
    while i < devices.len()
        invariant
            i <= devices.len(),
            all == devices_of(devices@),
            text::lookup(all.skip(i as int), id@) == text::lookup(all, id@),
        decreases devices.len() - i,
    {
        proof {
            text::lemma_lookup_skip(all, id@, i as int);
        }
        if text::same(devices[i].id.as_str(), id) {
            return Some(devices[i].display_name.clone());
        }
        i += 1;
    }
    None
}

// ---------------------------------------------------------------------------
// Sources
// ---------------------------------------------------------------------------

/// What devices for a medium are called.
pub open spec fn device_kind(media: MediaType) -> Option<Seq<char>> {
    match media {
        MediaType::Video => Some("Video/Source"@),
        MediaType::Audio => Some("Audio/Source"@),
        MediaType::Generic => None,
    }
}

/// A source for a medium: the host's default where no device is picked, or else
/// the device, which must be there.
pub open spec fn source(
    media: MediaType,
    device: Seq<char>,
    element: Seq<char>,
    fallback: Seq<char>,
    devices: Seq<(Seq<char>, Seq<char>)>,
) -> Result<ElementPlan, BuildErrorInfo> {
    if device.len() == 0 {
        Ok(plan::plain_element(element, fallback))
    } else {
        match device_kind(media) {
            None => Err(
                BuildErrorInfo::InvalidConfiguration(
                    "Unsupported media type for Local Input source: Generic"@,
                ),
            ),
            Some(kind) => match text::lookup(devices, device) {
                None => Err(
                    BuildErrorInfo::InvalidConfiguration(
                        kind + " device '"@ + device
                            + "' not found — refresh /api/discovery/devices and pick a current id"@,
                    ),
                ),
                Some(name) => Ok(
                    plan::plain_element(element, device).made_by(Recipe::Device).labelled(
                        "create_element for "@ + kind + " device '"@ + name + "' ("@ + device
                            + ")"@,
                    ),
                ),
            },
        }
    }
}

pub open spec fn source_seen(r: Result<ElementSpec, BlockBuildError>) -> Result<
    ElementPlan,
    BuildErrorInfo,
> {
    match r {
        Ok(e) => Ok(e@),
        Err(e) => Err(e@),
    }
}

/// A source for a medium.
pub fn make_source(
    media: MediaType,
    device_id: &str,
    element_id: &str,
    fallback_element_name: &str,
    devices: &Vec<LocalDevice>,
) -> (r: Result<ElementSpec, BlockBuildError>)
    ensures
        source_seen(r) == source(
            media,
            device_id@,
            element_id@,
            fallback_element_name@,
            devices_of(devices@),
        ),
{
    if device_id.is_empty() {
        return Ok(ElementSpec::new(element_id, fallback_element_name));
    }
    let kind = match media {
        MediaType::Video => "Video/Source",
        MediaType::Audio => "Audio/Source",
        MediaType::Generic => {
            return Err(
                BlockBuildError::InvalidConfiguration(
                    "Unsupported media type for Local Input source: Generic".to_owned(),
                ),
            );
        },
    };
    match device_name(devices, device_id) {
        None => Err(
            BlockBuildError::InvalidConfiguration(
                kind.to_owned().concat(" device '").concat(device_id).concat(
                    "' not found — refresh /api/discovery/devices and pick a current id",
                ),
            ),
        ),
        Some(name) => {
            let label = "create_element for ".to_owned().concat(kind).concat(" device '").concat(
                name.as_str(),
            ).concat("' (").concat(device_id).concat(")");
            let mut e = ElementSpec::new(element_id, device_id);
            e.make_by(Recipe::Device);
            e.label(label.as_str());
            Ok(e)
        },
    }
}

// ---------------------------------------------------------------------------
// Building
// ---------------------------------------------------------------------------

/// The media that the block captures.
pub open spec fn mode_under(p: PropertyMap) -> StreamMode {
    definition::stream_mode_of(p, StreamMode::AudioVideo)
}

/// The pads of the block.
pub open spec fn capture_pads(mode: StreamMode) -> PadsInfo {
    PadsInfo {
        inputs: Seq::empty(),
        outputs: definition::mode_pads(
            mode,
            "video_out"@,
            "videocapsfilter"@,
            "audio_out"@,
            "audiocapsfilter"@,
            "src"@,
        ),
    }
}

fn make_pads(mode: StreamMode) -> (r: ExternalPads)
    ensures
        r@ == capture_pads(mode),
{
    let inputs: Vec<ExternalPad> = Vec::new();
    let outputs = definition::pads_for_mode(
        mode,
        "video_out",
        "videocapsfilter",
        "audio_out",
        "audiocapsfilter",
        "src",
    );
    assert(definition::pad_infos(inputs@) =~= Seq::<PadInfo>::empty());
    ExternalPads { inputs, outputs }
}

/// The video source of a block with the given properties.
pub open spec fn video_source(
    instance: Seq<char>,
    p: PropertyMap,
    devices: Seq<(Seq<char>, Seq<char>)>,
) -> Result<ElementPlan, BuildErrorInfo> {
    source(
        MediaType::Video,
        properties::text_or(p, "video_device"@, ""@),
        plan::member(instance, "videosrc"@),
        "autovideosrc"@,
        devices,
    )
}

/// The audio source of a block with the given properties.
pub open spec fn audio_source(
    instance: Seq<char>,
    p: PropertyMap,
    devices: Seq<(Seq<char>, Seq<char>)>,
) -> Result<ElementPlan, BuildErrorInfo> {
    source(
        MediaType::Audio,
        properties::text_or(p, "audio_device"@, ""@),
        plan::member(instance, "audiosrc"@),
        "autoaudiosrc"@,
        devices,
    )
}

/// The plan with what follows a video source.
pub open spec fn with_video(
    base: PlanInfo,
    instance: Seq<char>,
    from: ElementPlan,
    convert: Seq<char>,
) -> PlanInfo {
    let videosrc = plan::member(instance, "videosrc"@);
    let videoconvert = plan::member(instance, "videoconvert"@);
    let videocaps = plan::member(instance, "videocapsfilter"@);
    base.add(from).add(plan::plain_element(videoconvert, convert)).add(
        plan::plain_element(videocaps, "capsfilter"@).labelled("videocapsfilter"@).with(
            "caps"@,
            SettingInfo::Caps(plan::any_of("video/x-raw"@)),
        ),
    ).link(videosrc, "src"@, videoconvert, "sink"@).link(
        videoconvert,
        "src"@,
        videocaps,
        "sink"@,
    )
}

fn add_video(parts: &mut BlockPlan, instance_id: &str, from: ElementSpec, convert: &str)
    ensures
        final(parts)@ == with_video(old(parts)@, instance_id@, from@, convert@),
{
    let videosrc = plan::member_id(instance_id, "videosrc");
    let videoconvert = plan::member_id(instance_id, "videoconvert");
    let videocaps = plan::member_id(instance_id, "videocapsfilter");
    parts.add(from);
    parts.add(ElementSpec::new(videoconvert.as_str(), convert));
    let mut e = ElementSpec::new(videocaps.as_str(), "capsfilter");
    e.label("videocapsfilter");
    e.set("caps", SettingValue::Caps(CapsSpec::new("video/x-raw")));
    parts.add(e);
    parts.link(videosrc.as_str(), "src", videoconvert.as_str(), "sink");
    parts.link(videoconvert.as_str(), "src", videocaps.as_str(), "sink");
}

/// The plan with what follows an audio source.
pub open spec fn with_audio(base: PlanInfo, instance: Seq<char>, from: ElementPlan) -> PlanInfo {
    let audiosrc = plan::member(instance, "audiosrc"@);
    let audioconvert = plan::member(instance, "audioconvert"@);
    let audioresample = plan::member(instance, "audioresample"@);
    let audiocaps = plan::member(instance, "audiocapsfilter"@);
    base.add(from).add(plan::plain_element(audioconvert, "audioconvert"@)).add(
        plan::plain_element(audioresample, "audioresample"@),
    ).add(
        plan::plain_element(audiocaps, "capsfilter"@).labelled("audiocapsfilter"@).with(
            "caps"@,
            SettingInfo::Caps(plan::any_of("audio/x-raw"@)),
        ),
    ).link(audiosrc, "src"@, audioconvert, "sink"@).link(
        audioconvert,
        "src"@,
        audioresample,
        "sink"@,
    ).link(audioresample, "src"@, audiocaps, "sink"@)
}

fn add_audio(parts: &mut BlockPlan, instance_id: &str, from: ElementSpec)
    ensures
        final(parts)@ == with_audio(old(parts)@, instance_id@, from@),
{
    let audiosrc = plan::member_id(instance_id, "audiosrc");
    let audioconvert = plan::member_id(instance_id, "audioconvert");
    let audioresample = plan::member_id(instance_id, "audioresample");
    let audiocaps = plan::member_id(instance_id, "audiocapsfilter");
    parts.add(from);
    parts.add(ElementSpec::new(audioconvert.as_str(), "audioconvert"));
    parts.add(ElementSpec::new(audioresample.as_str(), "audioresample"));
    let mut e = ElementSpec::new(audiocaps.as_str(), "capsfilter");
    e.label("audiocapsfilter");
    e.set("caps", SettingValue::Caps(CapsSpec::new("audio/x-raw")));
    parts.add(e);
    parts.link(audiosrc.as_str(), "src", audioconvert.as_str(), "sink");
    parts.link(audioconvert.as_str(), "src", audioresample.as_str(), "sink");
    parts.link(audioresample.as_str(), "src", audiocaps.as_str(), "sink");
}

/// What the block is built of where its sources are there.
pub open spec fn capture_plan(
    instance: Seq<char>,
    mode: StreamMode,
    video: Result<ElementPlan, BuildErrorInfo>,
    audio: Result<ElementPlan, BuildErrorInfo>,
    convert: Seq<char>,
) -> PlanInfo {
    let seen = if mode.video() {
        with_video(plan::empty_plan(), instance, video->Ok_0, convert)
    } else {
        plan::empty_plan()
    };
    if mode.audio() {
        with_audio(seen, instance, audio->Ok_0)
    } else {
        seen
    }
}

/// What the block is built of with the given properties, or why it cannot be
/// built: a device that was picked for a medium that it captures is not there.
/// `convert` is the host's element for converting raw video.
pub open spec fn capture(
    instance: Seq<char>,
    p: PropertyMap,
    convert: Seq<char>,
    devices: Seq<(Seq<char>, Seq<char>)>,
) -> Result<PlanInfo, BuildErrorInfo> {
    let mode = mode_under(p);
    let video = video_source(instance, p, devices);
    let audio = audio_source(instance, p, devices);
    if mode.video() && video is Err {
        Err(video->Err_0)
    } else if mode.audio() && audio is Err {
        Err(audio->Err_0)
    } else {
        Ok(capture_plan(instance, mode, video, audio, convert))
    }
}

pub open spec fn build_seen(r: Result<BlockPlan, BlockBuildError>) -> Result<
    PlanInfo,
    BuildErrorInfo,
> {
    match r {
        Ok(plan) => Ok(plan@),
        Err(e) => Err(e@),
    }
}

impl LocalInputBuilder {
    /// The pads that the block shows with the given properties.
    pub fn get_external_pads(&self, properties: &Properties) -> (r: Option<ExternalPads>)
        ensures
            r matches Some(pads) && pads@ == capture_pads(mode_under(properties@)),
    {
        Some(make_pads(definition::read_stream_mode(properties, StreamMode::AudioVideo)))
    }

    /// What the block is built of with the given properties.
    pub fn build(
        &self,
        instance_id: &str,
        properties: &Properties,
        convert: &str,
        devices: &Vec<LocalDevice>,
    ) -> (r: Result<BlockPlan, BlockBuildError>)
        ensures
            build_seen(r) == capture(
                instance_id@,
                properties@,
                convert@,
                devices_of(devices@),
            ),
    {
        let mode = definition::read_stream_mode(properties, StreamMode::AudioVideo);
        let mut parts = BlockPlan::new();
        if mode.has_video() {
            let device = properties.text_or("video_device", "");
            let element = plan::member_id(instance_id, "videosrc");
            match make_source(
                MediaType::Video,
                device.as_str(),
                element.as_str(),
                "autovideosrc",
                devices,
            ) {
                Ok(from) => {
                    add_video(&mut parts, instance_id, from, convert);
                },
                Err(e) => {
                    return Err(e);
                },
            }
        }
        if mode.has_audio() {
            let device = properties.text_or("audio_device", "");
            let element = plan::member_id(instance_id, "audiosrc");
            match make_source(
                MediaType::Audio,
                device.as_str(),
                element.as_str(),
                "autoaudiosrc",
                devices,
            ) {
                Ok(from) => {
                    add_audio(&mut parts, instance_id, from);
                },
                Err(e) => {
                    return Err(e);
                },
            }
        }
        Ok(parts)
    }
}

/// Every connection inside the block is between elements of the block, and
/// every pad that the block shows is a pad of one of them.
pub proof fn local_input_is_connected(
    instance: Seq<char>,
    p: PropertyMap,
    convert: Seq<char>,
    devices: Seq<(Seq<char>, Seq<char>)>,
)
    requires
        capture(instance, p, convert, devices) is Ok,
    ensures
        capture(instance, p, convert, devices)->Ok_0.links_hold(),
        forall|i: int|
            0 <= i < capture_pads(mode_under(p)).outputs.len() ==> capture(
                instance,
                p,
                convert,
                devices,
            )->Ok_0.has_element(
                plan::member(
                    instance,
                    (#[trigger] capture_pads(mode_under(p)).outputs[i]).internal_element_id,
                ),
            ),
{
    broadcast use {plan::adding_keeps, plan::linking_keeps};

    let mode = mode_under(p);
    let all = capture(instance, p, convert, devices)->Ok_0;
    assert(plan::empty_plan().links_hold());
    if mode.video() {
        let from = video_source(instance, p, devices)->Ok_0;
        assert(from.id == plan::member(instance, "videosrc"@));
        let seen = with_video(plan::empty_plan(), instance, from, convert);
        assert(seen.links_hold() && seen.has_element(plan::member(instance, "videocapsfilter"@)));
    }
    if mode.audio() {
        let from = audio_source(instance, p, devices)->Ok_0;
        assert(from.id == plan::member(instance, "audiosrc"@));
    }
    assert(mode.video() ==> all.has_element(plan::member(instance, "videocapsfilter"@)));
    assert(mode.audio() ==> all.has_element(plan::member(instance, "audiocapsfilter"@)));
    assert forall|i: int| 0 <= i < capture_pads(mode).outputs.len() implies all.has_element(
        plan::member(instance, (#[trigger] capture_pads(mode).outputs[i]).internal_element_id),
    ) by {
        if i == 0 && mode.video() {
            assert(capture_pads(mode).outputs[i].internal_element_id == "videocapsfilter"@);
        } else {
            assert(capture_pads(mode).outputs[i].internal_element_id == "audiocapsfilter"@);
        }
    }
}

/// The names of the elements inside the block.
pub open spec fn capture_names(mode: StreamMode) -> Seq<Seq<char>> {
    let seen = if mode.video() {
        seq!["videosrc"@, "videoconvert"@, "videocapsfilter"@]
    } else {
        Seq::empty()
    };
    if mode.audio() {
        seen + seq!["audiosrc"@, "audioconvert"@, "audioresample"@, "audiocapsfilter"@]
    } else {
        seen
    }
}

/// No two elements of the block have the same id.
pub proof fn local_input_ids_differ(
    instance: Seq<char>,
    p: PropertyMap,
    convert: Seq<char>,
    devices: Seq<(Seq<char>, Seq<char>)>,
)
    requires
        capture(instance, p, convert, devices) is Ok,
    ensures
        capture(instance, p, convert, devices)->Ok_0.ids_differ(),
{
    reveal_strlit("videosrc");
    reveal_strlit("videoconvert");
    reveal_strlit("videocapsfilter");
    reveal_strlit("audiosrc");
    reveal_strlit("audioconvert");
    reveal_strlit("audioresample");
    reveal_strlit("audiocapsfilter");
    assert("videosrc"@[0] == 'v' && "audiosrc"@[0] == 'a');
    assert("videoconvert"@[0] == 'v' && "audioconvert"@[0] == 'a');
    assert("videocapsfilter"@[0] == 'v' && "audiocapsfilter"@[0] == 'a');
    let all = capture(instance, p, convert, devices)->Ok_0;
    plan::lemma_names_keep_ids_apart(all, instance, capture_names(mode_under(p)));
}

/// Without a picked device the block can be built whatever the host has, and is
/// built the same.
pub proof fn default_devices_are_always_there(
    instance: Seq<char>,
    p: PropertyMap,
    convert: Seq<char>,
    devices: Seq<(Seq<char>, Seq<char>)>,
)
    requires
        properties::text_or(p, "video_device"@, ""@).len() == 0,
        properties::text_or(p, "audio_device"@, ""@).len() == 0,
    ensures
        capture(instance, p, convert, devices) is Ok,
        capture(instance, p, convert, devices) == capture(instance, p, convert, Seq::empty()),
{
}

// ---------------------------------------------------------------------------
// Definition
// ---------------------------------------------------------------------------

/// Which media are captured.
pub open spec fn stream_modes() -> Seq<Choice> {
    definition::no_choice()
        .push(("audio_video"@, Some("Audio + Video"@)))
        .push(("video"@, Some("Video only"@)))
        .push(("audio"@, Some("Audio only"@)))
}

fn stream_modes_values() -> (r: Vec<EnumValue>)
    ensures
        definition::choices(r@) == stream_modes(),
{
    let mut all = definition::no_values();
    definition::add_value(&mut all, "audio_video", "Audio + Video");
    definition::add_value(&mut all, "video", "Video only");
    definition::add_value(&mut all, "audio", "Audio only");
    all
}

/// How the block presents itself.
pub open spec fn capture_definition() -> DefinitionInfo {
    definition::built_in_block(
        "builtin.local_input"@,
        "Local Input"@,
        "Captures from local video/audio sources exposed by the OS's native media APIs (v4l2 on Linux, AVFoundation on macOS, Media Foundation/WASAPI on Windows). Works for any GStreamer Video/Source or Audio/Source device — built-in cameras, USB capture cards, HDMI/SDI grabbers, professional audio interfaces, virtual sources, etc. Pick devices from /api/discovery/devices?category=video_source and ?category=audio_source — leave empty to use the OS default (autovideosrc/autoaudiosrc). Output is normalized to raw video/audio via videoconvert + audioconvert/audioresample."@,
        "Inputs"@,
        capture_pads(StreamMode::AudioVideo),
        definition::plain_looks(Some("🎥"@), 20, 15),
    ).property(
        definition::block_property(
            "stream_mode"@,
            "Stream Mode"@,
            "Which media tracks to expose: video only, audio only, or both. Audio and video can come from independent devices."@,
            TypeInfo::OneOf(stream_modes()),
            PropertyTree::Text("audio_video"@),
        ),
    ).property(
        definition::block_property(
            "video_device"@,
            "Video Source"@,
            "Local Video/Source device to capture from (built-in cameras, USB capture cards, HDMI/SDI grabbers, virtual sources, ...). Picked from the live device list — leave empty to use the OS default (autovideosrc)."@,
            TypeInfo::VideoDevice,
            PropertyTree::Text(""@),
        ),
    ).property(
        definition::block_property(
            "audio_device"@,
            "Audio Source"@,
            "Local Audio/Source device to capture from (built-in inputs, professional audio interfaces, USB grabbers, virtual sources, ...). Picked from the live device list — leave empty to use the OS default (autoaudiosrc)."@,
            TypeInfo::AudioDevice,
            PropertyTree::Text(""@),
        ),
    )
}

/// How the block presents itself.
pub fn local_input_definition() -> (r: BlockDefinition)
    ensures
        r@ == capture_definition(),
{
    let mut d = BlockDefinition::built_in(
        "builtin.local_input",
        "Local Input",
        "Captures from local video/audio sources exposed by the OS's native media APIs (v4l2 on Linux, AVFoundation on macOS, Media Foundation/WASAPI on Windows). Works for any GStreamer Video/Source or Audio/Source device — built-in cameras, USB capture cards, HDMI/SDI grabbers, professional audio interfaces, virtual sources, etc. Pick devices from /api/discovery/devices?category=video_source and ?category=audio_source — leave empty to use the OS default (autovideosrc/autoaudiosrc). Output is normalized to raw video/audio via videoconvert + audioconvert/audioresample.",
        "Inputs",
        make_pads(StreamMode::AudioVideo),
        definition::plain_ui(Some("🎥"), 20, 15),
    );
    d.property(
        definition::for_block(
            "stream_mode",
            "Stream Mode",
            "Which media tracks to expose: video only, audio only, or both. Audio and video can come from independent devices.",
            PropertyType::Enum { values: stream_modes_values() },
            PropertyValue::String("audio_video".to_owned()),
        ),
    );
    d.property(
        definition::for_block(
            "video_device",
            "Video Source",
            "Local Video/Source device to capture from (built-in cameras, USB capture cards, HDMI/SDI grabbers, virtual sources, ...). Picked from the live device list — leave empty to use the OS default (autovideosrc).",
            PropertyType::VideoDevice,
            PropertyValue::String("".to_owned()),
        ),
    );
    d.property(
        definition::for_block(
            "audio_device",
            "Audio Source",
            "Local Audio/Source device to capture from (built-in inputs, professional audio interfaces, USB grabbers, virtual sources, ...). Picked from the live device list — leave empty to use the OS default (autoaudiosrc).",
            PropertyType::AudioDevice,
            PropertyValue::String("".to_owned()),
        ),
    );
    d
}

/// The blocks of this kind.
pub fn get_blocks() -> (r: Vec<BlockDefinition>)
    ensures
        definition::definition_infos(r@) == seq![capture_definition()],
{
    definition::only(local_input_definition())
}

} // verus!
