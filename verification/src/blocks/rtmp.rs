//! Publishing to an RTMP server, muxed as FLV.
//!
//! ```text
//! video: rtmp_video_input → h264parse → flvmux
//! audio: rtmp_audio_input → (audioconvert → audioresample → avenc_aac) → aacparse → flvmux
//! flvmux → rtmp2sink
//! ```
//!
//! The muxer writes its header once, from the pads that it has when the first
//! frame arrives, and it waits for every pad that it has. So a pad is reserved
//! for each input that is connected before anything runs, the chain in front of
//! it is built once it is known what the input carries, and the pad is handed
//! back where that cannot be published.

use crate::blocks::definition;
use crate::blocks::definition::{
    BlockDefinition, DefinitionInfo, ExternalPads, MediaType, PadsInfo, PropertyType, TypeInfo,
};
use crate::blocks::plan;
use crate::blocks::plan::{
    BlockBuildError, BlockPlan, BuildErrorInfo, ElementSpec, PlanInfo, SettingInfo, SettingValue,
};
use crate::properties;
use crate::properties::{Properties, PropertyMap, PropertyTree, PropertyValue};
use crate::text;
use vstd::prelude::*;

verus! {

/// The element that publishes.
pub const RTMP_SINK_FACTORY: &'static str = "rtmp2sink";

/// That the parser repeats the parameters of the stream on every key frame, for
/// viewers who join late.
pub const EVERY_KEY_FRAME: i32 = -1;

/// What the program runs on.
#[derive(Clone, Copy, Debug, PartialEq, Eq, Structural)]
pub enum Platform {
    MacOs,
    Windows,
    Other,
}

/// What to install for the element that publishes.
pub open spec fn package_hint(platform: Platform) -> Seq<char> {
    match platform {
        Platform::MacOs => "brew install gst-plugins-bad"@,
        Platform::Windows => "the GStreamer MSI installer's full package set"@,
        Platform::Other =>
            "gstreamer1.0-plugins-bad (Debian/Ubuntu), gstreamer1-plugins-bad-free (Fedora) or gst-plugins-bad (Arch)"@,
    }
}

/// What to install for the element that publishes.
pub fn rtmp_package_hint(platform: Platform) -> (r: &'static str)
    ensures
        r@ == package_hint(platform),
{
    match platform {
        Platform::MacOs => "brew install gst-plugins-bad",
        Platform::Windows => "the GStreamer MSI installer's full package set",
        Platform::Other =>
            "gstreamer1.0-plugins-bad (Debian/Ubuntu), gstreamer1-plugins-bad-free (Fedora) or gst-plugins-bad (Arch)",
    }
}

/// What is reported where the element that publishes is missing.
pub open spec fn missing_message(platform: Platform) -> Seq<char> {
    "RTMP Output needs the GStreamer "@ + RTMP_SINK_FACTORY@
        + " element, which this installation does not have. Install it with: "@ + package_hint(
        platform,
    )
}

/// What is reported where the element that publishes is missing.
pub fn rtmp_missing_message(platform: Platform) -> (r: String)
    ensures
        r@ == missing_message(platform),
{
    let hint = rtmp_package_hint(platform);
    "RTMP Output needs the GStreamer ".to_owned().concat(RTMP_SINK_FACTORY).concat(
        " element, which this installation does not have. Install it with: ",
    ).concat(hint)
}

// ---------------------------------------------------------------------------
// Building
// ---------------------------------------------------------------------------

pub struct RtmpOutputBuilder;

/// What the block is built of, given where to publish when nothing is set.
pub open spec fn output_plan(
    instance: Seq<char>,
    p: PropertyMap,
    default_location: Seq<char>,
) -> PlanInfo {
    let mux = plan::member(instance, "rtmp_flvmux"@);
    let sink = plan::member(instance, "rtmp_sink"@);
    plan::empty_plan().add(
        plan::plain_element(plan::member(instance, "rtmp_video_input"@), "identity"@).labelled(
            "video identity"@,
        ),
    ).add(
        plan::plain_element(plan::member(instance, "rtmp_audio_input"@), "identity"@).labelled(
            "audio identity"@,
        ),
    ).add(
        plan::plain_element(mux, "flvmux"@).with("streamable"@, SettingInfo::Bool(true)),
    ).add(
        plan::plain_element(sink, RTMP_SINK_FACTORY@).with(
            "location"@,
            SettingInfo::Text(properties::filled_text_or(p, "location"@, default_location)),
        ).with("sync"@, SettingInfo::Bool(properties::bool_or(p, "sync"@, true))).with(
            "async"@,
            SettingInfo::Bool(false),
        ).with("qos"@, SettingInfo::Bool(true)),
    ).link(mux, "src"@, sink, "sink"@)
}

impl RtmpOutputBuilder {
    /// What the block is built of with the given properties, or what is missing
    /// for it.
    pub fn build(
        &self,
        instance_id: &str,
        props: &Properties,
        default_location: &str,
        sink_found: bool,
        platform: Platform,
    ) -> (r: Result<BlockPlan, BlockBuildError>)
        ensures
            match r {
                Ok(parts) => sink_found && parts@ == output_plan(
                    instance_id@,
                    props@,
                    default_location@,
                ),
                Err(e) => !sink_found && e@ == BuildErrorInfo::MissingPlugin(
                    missing_message(platform),
                ),
            },
    {
        if !sink_found {
            return Err(BlockBuildError::MissingPlugin(rtmp_missing_message(platform)));
        }
        let video_id = plan::member_id(instance_id, "rtmp_video_input");
        let audio_id = plan::member_id(instance_id, "rtmp_audio_input");
        let mux_id = plan::member_id(instance_id, "rtmp_flvmux");
        let sink_id = plan::member_id(instance_id, "rtmp_sink");
        let mut parts = BlockPlan::new();
        let mut video = ElementSpec::new(video_id.as_str(), "identity");
        video.label("video identity");
        parts.add(video);
        let mut audio = ElementSpec::new(audio_id.as_str(), "identity");
        audio.label("audio identity");
        parts.add(audio);
        let mut mux = ElementSpec::new(mux_id.as_str(), "flvmux");
        mux.set("streamable", SettingValue::Bool(true));
        parts.add(mux);
        let mut sink = ElementSpec::new(sink_id.as_str(), RTMP_SINK_FACTORY);
        sink.set(
            "location",
            SettingValue::Text(props.filled_text_or("location", default_location)),
        );
        sink.set("sync", SettingValue::Bool(props.bool_or("sync", true)));
        sink.set("async", SettingValue::Bool(false));
        sink.set("qos", SettingValue::Bool(true));
        parts.add(sink);
        parts.link(mux_id.as_str(), "src", sink_id.as_str(), "sink");
        Ok(parts)
    }
}

/// Every connection inside the block is between elements of the block, and
/// every pad that the block shows is a pad of one of them.
pub proof fn output_is_connected(
    instance: Seq<char>,
    p: PropertyMap,
    default_location: Seq<char>,
)
    ensures
        output_plan(instance, p, default_location).links_hold(),
        output_plan(instance, p, default_location).has_element(
            plan::member(instance, "rtmp_video_input"@),
        ),
        output_plan(instance, p, default_location).has_element(
            plan::member(instance, "rtmp_audio_input"@),
        ),
{
    broadcast use {plan::adding_keeps, plan::linking_keeps};

    assert(plan::empty_plan().links_hold());
}

// ---------------------------------------------------------------------------
// What an input carries
// ---------------------------------------------------------------------------

/// What is done with audio.
#[derive(Clone, Copy, Debug, PartialEq, Eq, Structural)]
pub enum AudioPlan {
    /// It is raw and has to be encoded.
    Encode,
    /// It is encoded already.
    Parse,
}

/// Why video is refused, if it is: only H.264 can be published.
pub open spec fn video_refusal(caps_name: Seq<char>) -> Option<Seq<char>> {
    if caps_name == "video/x-h264"@ {
        None
    } else if caps_name == "video/x-raw"@ {
        Some(
            "RTMP Output needs H.264 video, but its video input is raw. Place a builtin.videoenc block before it and link its encoded_out pad"@,
        )
    } else {
        Some(
            "RTMP Output needs H.264 video, but its video input carries "@ + caps_name
                + ". FLV cannot carry that codec"@,
        )
    }
}

/// Whether video can be published, or why it is refused.
pub fn video_plan(caps_name: &str) -> (r: Result<(), String>)
    ensures
        match r {
            Ok(_) => video_refusal(caps_name@) is None,
            Err(reason) => video_refusal(caps_name@) == Some(reason@),
        },
{
    if text::same(caps_name, "video/x-h264") {
        Ok(())
    } else if text::same(caps_name, "video/x-raw") {
        Err(
            "RTMP Output needs H.264 video, but its video input is raw. Place a builtin.videoenc block before it and link its encoded_out pad".to_owned(),
        )
    } else {
        Err(
            "RTMP Output needs H.264 video, but its video input carries ".to_owned().concat(
                caps_name,
            ).concat(". FLV cannot carry that codec"),
        )
    }
}

/// What is done with audio, or why it is refused: raw audio is encoded, AAC is
/// passed on, and nothing else can be published.
pub open spec fn audio_decision(caps_name: Seq<char>, mpegversion: i32, layer: i32) -> Result<
    AudioPlan,
    Seq<char>,
> {
    if caps_name == "audio/x-raw"@ {
        Ok(AudioPlan::Encode)
    } else if caps_name == "audio/mpeg"@ {
        if mpegversion == 2 || mpegversion == 4 {
            Ok(AudioPlan::Parse)
        } else if mpegversion == 1 && layer == 3 {
            Err(
                "RTMP Output needs AAC or raw audio, but its audio input carries MP3. FLV can carry MP3 and this block does not implement that path"@,
            )
        } else {
            Err(
                "RTMP Output needs AAC or raw audio, but its audio input carries MPEG-"@
                    + text::decimal_int(mpegversion as int) + " audio layer "@
                    + text::decimal_int(layer as int) + ", which FLV cannot carry"@,
            )
        }
    } else {
        Err(
            "RTMP Output needs AAC or raw audio, but its audio input carries "@ + caps_name,
        )
    }
}

pub open spec fn seen(r: Result<AudioPlan, String>) -> Result<AudioPlan, Seq<char>> {
    match r {
        Ok(p) => Ok(p),
        Err(reason) => Err(reason@),
    }
}

/// What is done with audio, or why it is refused.
pub fn audio_plan(caps_name: &str, mpegversion: i32, layer: i32) -> (r: Result<AudioPlan, String>)
    ensures
        seen(r) == audio_decision(caps_name@, mpegversion, layer),
{
    if text::same(caps_name, "audio/x-raw") {
        Ok(AudioPlan::Encode)
    } else if text::same(caps_name, "audio/mpeg") {
        if mpegversion == 2 || mpegversion == 4 {
            Ok(AudioPlan::Parse)
        } else if mpegversion == 1 && layer == 3 {
            Err(
                "RTMP Output needs AAC or raw audio, but its audio input carries MP3. FLV can carry MP3 and this block does not implement that path".to_owned(),
            )
        } else {
            let version = text::i64_text(mpegversion as i64);
            let layer = text::i64_text(layer as i64);
            Err(
                "RTMP Output needs AAC or raw audio, but its audio input carries MPEG-".to_owned().concat(
                    version.as_str(),
                ).concat(" audio layer ").concat(layer.as_str()).concat(
                    ", which FLV cannot carry",
                ),
            )
        }
    } else {
        Err(
            "RTMP Output needs AAC or raw audio, but its audio input carries ".to_owned().concat(
                caps_name,
            ),
        )
    }
}

// ---------------------------------------------------------------------------
// An input on its way to the muxer
// ---------------------------------------------------------------------------

/// What is built in front of the muxer.
#[derive(Clone, Copy, Debug, PartialEq, Eq, Structural)]
pub enum Chain {
    Video,
    RawAudio,
    AacAudio,
}

/// An input, and the pad of the muxer that is reserved for it.
pub struct RtmpInput {
    pub reserved: Option<String>,
    /// It was seen what the input carries.
    pub decided: bool,
}

pub struct InputInfo {
    pub reserved: Option<Seq<char>>,
    pub decided: bool,
}

impl View for RtmpInput {
    type V = InputInfo;

    open spec fn view(&self) -> InputInfo {
        InputInfo { reserved: definition::optional(self.reserved), decided: self.decided }
    }
}

/// What to do once it is seen what an input carries.
pub enum InputStep {
    /// Nothing: it was seen before, or no pad was reserved.
    Leave,
    /// Build a chain up to the pad.
    Build(Chain, String),
    /// Hand the pad back, for the reason.
    Release(String, String),
}

pub enum StepInfo {
    Leave,
    Build(Chain, Seq<char>),
    Release(Seq<char>, Seq<char>),
}

impl View for InputStep {
    type V = StepInfo;

    open spec fn view(&self) -> StepInfo {
        match self {
            InputStep::Leave => StepInfo::Leave,
            InputStep::Build(chain, pad) => StepInfo::Build(*chain, pad@),
            InputStep::Release(pad, reason) => StepInfo::Release(pad@, reason@),
        }
    }
}

/// What to do with an input, given what can be done with what it carries.
pub open spec fn step_for(input: InputInfo, decision: Result<Chain, Seq<char>>) -> StepInfo {
    if input.decided {
        StepInfo::Leave
    } else {
        match input.reserved {
            Some(pad) => match decision {
                Ok(chain) => StepInfo::Build(chain, pad),
                Err(reason) => StepInfo::Release(pad, reason),
            },
            None => StepInfo::Leave,
        }
    }
}

/// What can be done with video.
pub open spec fn video_chain_for(caps_name: Seq<char>) -> Result<Chain, Seq<char>> {
    match video_refusal(caps_name) {
        None => Ok(Chain::Video),
        Some(reason) => Err(reason),
    }
}

/// What can be done with audio. Where the capabilities do not say which MPEG
/// audio it is, it is taken to be AAC.
pub open spec fn audio_chain_for(
    caps_name: Seq<char>,
    mpegversion: Option<i32>,
    layer: Option<i32>,
) -> Result<Chain, Seq<char>> {
    match audio_decision(
        caps_name,
        match mpegversion {
            Some(v) => v,
            None => 4,
        },
        match layer {
            Some(l) => l,
            None => 3,
        },
    ) {
        Ok(AudioPlan::Encode) => Ok(Chain::RawAudio),
        Ok(AudioPlan::Parse) => Ok(Chain::AacAudio),
        Err(reason) => Err(reason),
    }
}

pub open spec fn chain_seen(r: Result<Chain, String>) -> Result<Chain, Seq<char>> {
    match r {
        Ok(chain) => Ok(chain),
        Err(reason) => Err(reason@),
    }
}

impl RtmpInput {
    pub fn new() -> (r: RtmpInput)
        ensures
            r@ == (InputInfo { reserved: None, decided: false }),
    {
        RtmpInput { reserved: None, decided: false }
    }

    /// The muxer gave the input a pad, before anything ran. Only an input that is
    /// connected asks for one.
    pub fn reserve(&mut self, pad: String)
        ensures
            final(self)@ == (InputInfo { reserved: Some(pad@), ..old(self)@ }),
    {
        self.reserved = Some(pad);
    }

    fn decide(&mut self, decision: Result<Chain, String>) -> (r: InputStep)
        ensures
            r@ == step_for(old(self)@, chain_seen(decision)),
            final(self)@ == (InputInfo { decided: true, ..old(self)@ }),
    {
        if self.decided {
            return InputStep::Leave;
        }
        self.decided = true;
        match &self.reserved {
            Some(pad) => match decision {
                Ok(chain) => InputStep::Build(chain, pad.clone()),
                Err(reason) => InputStep::Release(pad.clone(), reason),
            },
            None => InputStep::Leave,
        }
    }

    /// It is seen what the video input carries.
    pub fn video_caps(&mut self, caps_name: &str) -> (r: InputStep)
        ensures
            r@ == step_for(old(self)@, video_chain_for(caps_name@)),
            final(self)@ == (InputInfo { decided: true, ..old(self)@ }),
    {
        let decision = match video_plan(caps_name) {
            Ok(_) => Ok(Chain::Video),
            Err(reason) => Err(reason),
        };
        self.decide(decision)
    }

    /// It is seen what the audio input carries.
    pub fn audio_caps(
        &mut self,
        caps_name: &str,
        mpegversion: Option<i32>,
        layer: Option<i32>,
    ) -> (r: InputStep)
        ensures
            r@ == step_for(old(self)@, audio_chain_for(caps_name@, mpegversion, layer)),
            final(self)@ == (InputInfo { decided: true, ..old(self)@ }),
    {
        let version: i32 = match mpegversion {
            Some(v) => v,
            None => 4,
        };
        let layer: i32 = match layer {
            Some(l) => l,
            None => 3,
        };
        let decision = match audio_plan(caps_name, version, layer) {
            Ok(AudioPlan::Encode) => Ok(Chain::RawAudio),
            Ok(AudioPlan::Parse) => Ok(Chain::AacAudio),
            Err(reason) => Err(reason),
        };
        self.decide(decision)
    }
}

/// A pad that was reserved is built up to or handed back as soon as it is seen
/// what its input carries, so that the muxer never waits for a pad in vain.
pub proof fn reserved_pads_are_used_or_released(
    input: InputInfo,
    decision: Result<Chain, Seq<char>>,
)
    requires
        !input.decided,
        input.reserved is Some,
    ensures
        decision is Ok ==> step_for(input, decision) == StepInfo::Build(
            decision->Ok_0,
            input.reserved->0,
        ),
        decision is Err ==> step_for(input, decision) == StepInfo::Release(
            input.reserved->0,
            decision->Err_0,
        ),
{
}

/// It is decided once what is done with an input.
pub proof fn inputs_are_decided_once(input: InputInfo, decision: Result<Chain, Seq<char>>)
    ensures
        step_for(InputInfo { decided: true, ..input }, decision) == StepInfo::Leave,
{
}

// ---------------------------------------------------------------------------
// Chains
// ---------------------------------------------------------------------------

/// What is built in front of a pad of the muxer. The input and the muxer are
/// there already.
pub open spec fn chain_plan(instance: Seq<char>, chain: Chain, pad: Seq<char>) -> PlanInfo {
    let mux = plan::member(instance, "rtmp_flvmux"@);
    let video = plan::member(instance, "rtmp_video_input"@);
    let audio = plan::member(instance, "rtmp_audio_input"@);
    let h264 = plan::member(instance, "rtmp_h264parse"@);
    let aac = plan::member(instance, "rtmp_aacparse"@);
    let convert = plan::member(instance, "rtmp_audio_convert"@);
    let resample = plan::member(instance, "rtmp_audio_resample"@);
    let encoder = plan::member(instance, "rtmp_audio_encoder"@);
    match chain {
        Chain::Video => plan::empty_plan().add(
            plan::plain_element(h264, "h264parse"@).with(
                "config-interval"@,
                SettingInfo::I32(EVERY_KEY_FRAME),
            ),
        ).link(video, "src"@, h264, "sink"@).link(h264, "src"@, mux, pad),
        Chain::RawAudio => plan::empty_plan().add(
            plan::plain_element(convert, "audioconvert"@),
        ).add(plan::plain_element(resample, "audioresample"@)).add(
            plan::plain_element(encoder, "avenc_aac"@),
        ).add(plan::plain_element(aac, "aacparse"@)).link(audio, "src"@, convert, "sink"@).link(
            convert,
            "src"@,
            resample,
            "sink"@,
        ).link(resample, "src"@, encoder, "sink"@).link(encoder, "src"@, aac, "sink"@).link(
            aac,
            "src"@,
            mux,
            pad,
        ),
        Chain::AacAudio => plan::empty_plan().add(plan::plain_element(aac, "aacparse"@)).link(
            audio,
            "src"@,
            aac,
            "sink"@,
        ).link(aac, "src"@, mux, pad),
    }
}

fn build_video_chain(instance_id: &str, pad: &str) -> (r: BlockPlan)
    ensures
        r@ == chain_plan(instance_id@, Chain::Video, pad@),
{
    let mux = plan::member_id(instance_id, "rtmp_flvmux");
    let input = plan::member_id(instance_id, "rtmp_video_input");
    let parser = plan::member_id(instance_id, "rtmp_h264parse");
    let mut parts = BlockPlan::new();
    let mut e = ElementSpec::new(parser.as_str(), "h264parse");
    e.set("config-interval", SettingValue::I32(EVERY_KEY_FRAME));
    parts.add(e);
    parts.link(input.as_str(), "src", parser.as_str(), "sink");
    parts.link(parser.as_str(), "src", mux.as_str(), pad);
    parts
}

fn build_raw_audio_chain(instance_id: &str, pad: &str) -> (r: BlockPlan)
    ensures
        r@ == chain_plan(instance_id@, Chain::RawAudio, pad@),
{
    let mux = plan::member_id(instance_id, "rtmp_flvmux");
    let input = plan::member_id(instance_id, "rtmp_audio_input");
    let convert = plan::member_id(instance_id, "rtmp_audio_convert");
    let resample = plan::member_id(instance_id, "rtmp_audio_resample");
    let encoder = plan::member_id(instance_id, "rtmp_audio_encoder");
    let parser = plan::member_id(instance_id, "rtmp_aacparse");
    let mut parts = BlockPlan::new();
    parts.add(ElementSpec::new(convert.as_str(), "audioconvert"));
    parts.add(ElementSpec::new(resample.as_str(), "audioresample"));
    parts.add(ElementSpec::new(encoder.as_str(), "avenc_aac"));
    parts.add(ElementSpec::new(parser.as_str(), "aacparse"));
    parts.link(input.as_str(), "src", convert.as_str(), "sink");
    parts.link(convert.as_str(), "src", resample.as_str(), "sink");
    parts.link(resample.as_str(), "src", encoder.as_str(), "sink");
    parts.link(encoder.as_str(), "src", parser.as_str(), "sink");
    parts.link(parser.as_str(), "src", mux.as_str(), pad);
    parts
}

fn build_aac_audio_chain(instance_id: &str, pad: &str) -> (r: BlockPlan)
    ensures
        r@ == chain_plan(instance_id@, Chain::AacAudio, pad@),
{
    let mux = plan::member_id(instance_id, "rtmp_flvmux");
    let input = plan::member_id(instance_id, "rtmp_audio_input");
    let parser = plan::member_id(instance_id, "rtmp_aacparse");
    let mut parts = BlockPlan::new();
    parts.add(ElementSpec::new(parser.as_str(), "aacparse"));
    parts.link(input.as_str(), "src", parser.as_str(), "sink");
    parts.link(parser.as_str(), "src", mux.as_str(), pad);
    parts
}

/// What is built in front of a pad of the muxer.
pub fn build_chain(instance_id: &str, chain: Chain, pad: &str) -> (r: BlockPlan)
    ensures
        r@ == chain_plan(instance_id@, chain, pad@),
{
    match chain {
        Chain::Video => build_video_chain(instance_id, pad),
        Chain::RawAudio => build_raw_audio_chain(instance_id, pad),
        Chain::AacAudio => build_aac_audio_chain(instance_id, pad),
    }
}

/// What is built in front of the muxer connects what the block is built of.
pub proof fn chains_are_connected(
    instance: Seq<char>,
    p: PropertyMap,
    default_location: Seq<char>,
    chain: Chain,
    pad: Seq<char>,
)
    ensures
        plan::joined(
            output_plan(instance, p, default_location),
            chain_plan(instance, chain, pad),
        ).links_hold(),
{
    let output = output_plan(instance, p, default_location);
    let added = chain_plan(instance, chain, pad);
    let whole = plan::joined(output, added);
    assert(whole.elements[0] == output.elements[0]);
    assert(whole.elements[1] == output.elements[1]);
    assert(whole.elements[2] == output.elements[2]);
    assert(whole.elements[3] == output.elements[3]);
    assert(whole.elements[4] == added.elements[0]);
    if chain == Chain::RawAudio {
        assert(whole.elements[5] == added.elements[1]);
        assert(whole.elements[6] == added.elements[2]);
        assert(whole.elements[7] == added.elements[3]);
    }
    assert(whole.links[0] == output.links[0]);
    assert forall|i: int| 1 <= i < whole.links.len() implies #[trigger] whole.links[i]
        == added.links[i - 1] by {}
}

/// No two elements have the same id, also with what is built in front of the
/// muxer for both inputs.
pub proof fn output_ids_differ(
    instance: Seq<char>,
    p: PropertyMap,
    default_location: Seq<char>,
    video_pad: Seq<char>,
    audio: Chain,
    audio_pad: Seq<char>,
)
    requires
        audio != Chain::Video,
    ensures
        plan::joined(
            plan::joined(
                output_plan(instance, p, default_location),
                chain_plan(instance, Chain::Video, video_pad),
            ),
            chain_plan(instance, audio, audio_pad),
        ).ids_differ(),
{
    let whole = plan::joined(
        plan::joined(
            output_plan(instance, p, default_location),
            chain_plan(instance, Chain::Video, video_pad),
        ),
        chain_plan(instance, audio, audio_pad),
    );
    reveal_strlit("rtmp_video_input");
    reveal_strlit("rtmp_audio_input");
    reveal_strlit("rtmp_flvmux");
    reveal_strlit("rtmp_sink");
    reveal_strlit("rtmp_h264parse");
    reveal_strlit("rtmp_audio_convert");
    reveal_strlit("rtmp_audio_resample");
    reveal_strlit("rtmp_audio_encoder");
    reveal_strlit("rtmp_aacparse");
    assert("rtmp_video_input"@[5] == 'v' && "rtmp_audio_input"@[5] == 'a');
    assert("rtmp_audio_convert"@[11] == 'c' && "rtmp_audio_encoder"@[11] == 'e');
    let names = seq!["rtmp_video_input"@, "rtmp_audio_input"@, "rtmp_flvmux"@, "rtmp_sink"@, "rtmp_h264parse"@] + if audio == Chain::RawAudio {
        seq!["rtmp_audio_convert"@, "rtmp_audio_resample"@, "rtmp_audio_encoder"@, "rtmp_aacparse"@]
    } else {
        seq!["rtmp_aacparse"@]
    };
    plan::lemma_names_keep_ids_apart(whole, instance, names);
}

// ---------------------------------------------------------------------------
// Definition
// ---------------------------------------------------------------------------

/// The pads of the block.
pub open spec fn output_pads() -> PadsInfo {
    definition::no_pads().input(
        definition::pad_info(
            Some("V"@),
            "video_in"@,
            MediaType::Video,
            "rtmp_video_input"@,
            "sink"@,
        ),
    ).input(
        definition::pad_info(
            Some("A"@),
            "audio_in"@,
            MediaType::Audio,
            "rtmp_audio_input"@,
            "sink"@,
        ),
    )
}

/// How the block presents itself, given where to publish when nothing is set.
pub open spec fn output_definition(default_location: Seq<char>) -> DefinitionInfo {
    definition::built_in_block(
        "builtin.rtmp_output"@,
        "RTMP Output"@,
        "Publish a programme to an RTMP server, muxed as FLV. Takes H.264 video, so place a Video Encoder before it; audio may be raw or AAC and is encoded here when raw."@,
        "Outputs"@,
        output_pads(),
        definition::plain_looks(Some("📡"@), 15, 20),
    ).property(
        definition::element_property(
            "location"@,
            "RTMP URL"@,
            "Where to publish, for example rtmp://host:1935/live/streamkey."@,
            TypeInfo::Text,
            Some(PropertyTree::Text(default_location)),
            "rtmp_sink"@,
            "location"@,
            false,
        ),
    ).property(
        definition::element_property(
            "sync"@,
            "Synchronise to clock"@,
            "Pace output against the pipeline clock. Turn off when the input carries a remote encoder's timestamps, which otherwise makes the sink believe it is behind and drop frames."@,
            TypeInfo::Bool,
            Some(PropertyTree::Bool(true)),
            "rtmp_sink"@,
            "sync"@,
            false,
        ),
    )
}

/// How the block presents itself.
pub fn rtmp_output_definition(default_location: &str) -> (r: BlockDefinition)
    ensures
        r@ == output_definition(default_location@),
{
    let mut pads = ExternalPads::none();
    pads.input(
        definition::external_pad(
            Some("V"),
            "video_in",
            MediaType::Video,
            "rtmp_video_input",
            "sink",
        ),
    );
    pads.input(
        definition::external_pad(
            Some("A"),
            "audio_in",
            MediaType::Audio,
            "rtmp_audio_input",
            "sink",
        ),
    );
    let mut d = BlockDefinition::built_in(
        "builtin.rtmp_output",
        "RTMP Output",
        "Publish a programme to an RTMP server, muxed as FLV. Takes H.264 video, so place a Video Encoder before it; audio may be raw or AAC and is encoded here when raw.",
        "Outputs",
        pads,
        definition::plain_ui(Some("📡"), 15, 20),
    );
    d.property(
        definition::for_element(
            "location",
            "RTMP URL",
            "Where to publish, for example rtmp://host:1935/live/streamkey.",
            PropertyType::String,
            Some(PropertyValue::String(default_location.to_owned())),
            "rtmp_sink",
            "location",
            false,
        ),
    );
    d.property(
        definition::for_element(
            "sync",
            "Synchronise to clock",
            "Pace output against the pipeline clock. Turn off when the input carries a remote encoder's timestamps, which otherwise makes the sink believe it is behind and drop frames.",
            PropertyType::Bool,
            Some(PropertyValue::Bool(true)),
            "rtmp_sink",
            "sync",
            false,
        ),
    );
    d
}

/// The blocks of this kind.
pub fn get_blocks(default_location: &str) -> (r: Vec<BlockDefinition>)
    ensures
        definition::definition_infos(r@) == seq![output_definition(default_location@)],
{
    definition::only(rtmp_output_definition(default_location))
}

} // verus!
