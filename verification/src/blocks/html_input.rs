//! HTML input: a web page as a video (and audio) source.
//!
//! ```text
//! cefsrc → capsfilter → cefdemux → videoconvert → video_output
//!                                → audioconvert → audioresample → audio_output
//! ```
//!
//! Without audio there is no `cefdemux`. Without video the page is rendered all
//! the same, as the audio is taken out of its frames.

use crate::blocks::definition;
use crate::blocks::definition::{
    BlockDefinition, Choice, DefinitionInfo, EnumValue, ExternalPad, ExternalPads, PadInfo,
    PadsInfo, PropertyType, StreamMode, TypeInfo,
};
use crate::blocks::plan;
use crate::blocks::plan::{
    BlockBuildError, BlockPlan, BuildErrorInfo, CapsField, CapsFieldInfo, CapsInfo, CapsSpec,
    ElementSpec, PlanInfo, SettingInfo, SettingValue,
};
use crate::properties;
use crate::properties::{Properties, PropertyMap, PropertyTree, PropertyValue};
use crate::text;
use vstd::prelude::*;

verus! {

/// The page shown by a block nobody has configured yet.
pub const DEFAULT_URL: &'static str = "https://example.com";

pub const DEFAULT_WIDTH: u64 = 1920;

pub const DEFAULT_HEIGHT: u64 = 1080;

pub const DEFAULT_FRAMERATE: u64 = 30;

/// This block's definition id.
pub const BLOCK_ID: &'static str = "builtin.html_input";

/// The property that decides whether a link may be minted for this block.
pub const REMOTE_CONTROL_PROPERTY: &'static str = "remote_control";

pub struct HtmlInputBuilder;

// ---------------------------------------------------------------------------
// Properties
// ---------------------------------------------------------------------------

/// The page that a block with the given properties renders.
pub open spec fn page_url(p: PropertyMap) -> Seq<char> {
    properties::filled_text_or(p, "url"@, DEFAULT_URL@)
}

/// Whether a block with the given properties may be controlled remotely.
pub open spec fn remote_control_allowed(p: PropertyMap) -> bool {
    properties::bool_or(p, REMOTE_CONTROL_PROPERTY@, false)
}

/// The page that the block renders.
pub fn url(properties: &Properties) -> (r: String)
    ensures
        r@ == page_url(properties@),
{
    properties.filled_text_or("url", DEFAULT_URL)
}

/// Whether the block may be controlled remotely.
pub fn remote_control_enabled(properties: &Properties) -> (r: bool)
    ensures
        r == remote_control_allowed(properties@),
{
    properties.bool_or(REMOTE_CONTROL_PROPERTY, false)
}

/// A number above zero: the one set under a name, or `fallback`.
pub open spec fn positive_under(p: PropertyMap, name: Seq<char>, fallback: u64) -> u64 {
    match properties::unsigned_from(p, name, 1) {
        Some(n) => if n > 0 {
            n
        } else {
            fallback
        },
        None => fallback,
    }
}

/// A number above zero: the one set under a name, or `fallback`.
pub fn uint_property(properties: &Properties, name: &str, fallback: u64) -> (r: u64)
    ensures
        r == positive_under(properties@, name@, fallback),
{
    match properties.unsigned_from(name, 1) {
        Some(n) => if n > 0 {
            n
        } else {
            fallback
        },
        None => fallback,
    }
}

/// The media that a page is shown as.
pub open spec fn mode_under(p: PropertyMap) -> StreamMode {
    definition::stream_mode_of(p, StreamMode::Video)
}

/// The media that a page is shown as.
pub fn stream_mode(properties: &Properties) -> (r: StreamMode)
    ensures
        r == mode_under(properties@),
{
    definition::read_stream_mode(properties, StreamMode::Video)
}

// ---------------------------------------------------------------------------
// Building
// ---------------------------------------------------------------------------

/// The pads of the block.
pub open spec fn page_pads(mode: StreamMode) -> PadsInfo {
    PadsInfo {
        inputs: Seq::empty(),
        outputs: definition::mode_pads(
            mode,
            "video_out"@,
            "video_output"@,
            "audio_out"@,
            "audio_output"@,
            "src"@,
        ),
    }
}

fn make_pads(mode: StreamMode) -> (r: ExternalPads)
    ensures
        r@ == page_pads(mode),
{
    let inputs: Vec<ExternalPad> = Vec::new();
    let outputs = definition::pads_for_mode(
        mode,
        "video_out",
        "video_output",
        "audio_out",
        "audio_output",
        "src",
    );
    assert(definition::pad_infos(inputs@) =~= Seq::<PadInfo>::empty());
    ExternalPads { inputs, outputs }
}

/// What is reported where an element cannot be created: which plugin is
/// missing, for the two elements that it brings.
pub open spec fn creation_failure(factory: Seq<char>, reason: Seq<char>) -> BuildErrorInfo {
    if factory == "cefsrc"@ || factory == "cefdemux"@ {
        BuildErrorInfo::MissingPlugin(
            "HTML sources need the gstcefsrc plugin for `"@ + factory
                + "`, which ships in the strom-full image ("@ + reason + ")"@,
        )
    } else {
        BuildErrorInfo::ElementCreation(
            "Failed to create "@ + factory + " for the HTML input block: "@ + reason,
        )
    }
}

/// What is reported where an element cannot be created.
pub fn element_failure(factory: &str, reason: &str) -> (r: BlockBuildError)
    ensures
        r@ == creation_failure(factory@, reason@),
{
    if text::same(factory, "cefsrc") || text::same(factory, "cefdemux") {
        BlockBuildError::MissingPlugin(
            "HTML sources need the gstcefsrc plugin for `".to_owned().concat(factory).concat(
                "`, which ships in the strom-full image (",
            ).concat(reason).concat(")"),
        )
    } else {
        BlockBuildError::ElementCreation(
            "Failed to create ".to_owned().concat(factory).concat(
                " for the HTML input block: ",
            ).concat(reason),
        )
    }
}

/// The size and rate that a page is rendered at.
pub open spec fn viewport(p: PropertyMap) -> CapsInfo {
    plan::any_of("video/x-raw"@).field("format"@, CapsFieldInfo::Text("BGRA"@)).field(
        "width"@,
        CapsFieldInfo::Int(positive_under(p, "width"@, DEFAULT_WIDTH) as i32),
    ).field(
        "height"@,
        CapsFieldInfo::Int(positive_under(p, "height"@, DEFAULT_HEIGHT) as i32),
    ).field(
        "framerate"@,
        CapsFieldInfo::Fraction(
            positive_under(p, "framerate"@, DEFAULT_FRAMERATE) as i32,
            1,
        ),
    )
}

fn make_viewport(props: &Properties) -> (r: CapsSpec)
    ensures
        r@ == viewport(props@),
{
    let width = uint_property(props, "width", DEFAULT_WIDTH);
    let height = uint_property(props, "height", DEFAULT_HEIGHT);
    let framerate = uint_property(props, "framerate", DEFAULT_FRAMERATE);
    let mut caps = CapsSpec::new("video/x-raw");
    caps.field("format", CapsField::Text("BGRA".to_owned()));
    caps.field("width", CapsField::Int(width as i32));
    caps.field("height", CapsField::Int(height as i32));
    caps.field("framerate", CapsField::Fraction(framerate as i32, 1));
    caps
}

/// The page, rendered.
pub open spec fn rendered(instance: Seq<char>, p: PropertyMap) -> PlanInfo {
    let page = plan::member(instance, "cefsrc"@);
    let filter = plan::member(instance, "capsfilter"@);
    plan::empty_plan().add(
        plan::plain_element(page, "cefsrc"@).with("url"@, SettingInfo::Text(page_url(p))),
    ).add(
        plan::plain_element(filter, "capsfilter"@).with("caps"@, SettingInfo::Caps(viewport(p))),
    ).link(page, "src"@, filter, "sink"@)
}

/// The plan with the audio of the page.
pub open spec fn with_audio(base: PlanInfo, instance: Seq<char>) -> PlanInfo {
    let demux = plan::member(instance, "cefdemux"@);
    let convert = plan::member(instance, "audioconvert"@);
    let resample = plan::member(instance, "audioresample"@);
    let output = plan::member(instance, "audio_output"@);
    base.add(plan::plain_element(demux, "cefdemux"@)).add(
        plan::plain_element(convert, "audioconvert"@),
    ).add(plan::plain_element(resample, "audioresample"@)).add(
        plan::plain_element(output, "identity"@),
    ).link(plan::member(instance, "capsfilter"@), "src"@, demux, "sink"@).link(
        demux,
        "audio"@,
        convert,
        "sink"@,
    ).link(convert, "src"@, resample, "sink"@).link(resample, "src"@, output, "sink"@)
}

fn add_audio(parts: &mut BlockPlan, instance_id: &str)
    ensures
        final(parts)@ == with_audio(old(parts)@, instance_id@),
{
    let filter = plan::member_id(instance_id, "capsfilter");
    let demux = plan::member_id(instance_id, "cefdemux");
    let convert = plan::member_id(instance_id, "audioconvert");
    let resample = plan::member_id(instance_id, "audioresample");
    let output = plan::member_id(instance_id, "audio_output");
    parts.add(ElementSpec::new(demux.as_str(), "cefdemux"));
    parts.add(ElementSpec::new(convert.as_str(), "audioconvert"));
    parts.add(ElementSpec::new(resample.as_str(), "audioresample"));
    parts.add(ElementSpec::new(output.as_str(), "identity"));
    parts.link(filter.as_str(), "src", demux.as_str(), "sink");
    parts.link(demux.as_str(), "audio", convert.as_str(), "sink");
    parts.link(convert.as_str(), "src", resample.as_str(), "sink");
    parts.link(resample.as_str(), "src", output.as_str(), "sink");
}

/// Where the video of the page comes from: an element and its pad.
pub open spec fn video_from(instance: Seq<char>, mode: StreamMode) -> (Seq<char>, Seq<char>) {
    if mode.audio() {
        (plan::member(instance, "cefdemux"@), "video"@)
    } else {
        (plan::member(instance, "capsfilter"@), "src"@)
    }
}

/// The plan with the video of the page.
pub open spec fn with_video(base: PlanInfo, instance: Seq<char>, mode: StreamMode) -> PlanInfo {
    let convert = plan::member(instance, "videoconvert"@);
    let output = plan::member(instance, "video_output"@);
    let from = video_from(instance, mode);
    base.add(plan::plain_element(convert, "videoconvert"@)).add(
        plan::plain_element(output, "identity"@),
    ).link(from.0, from.1, convert, "sink"@).link(convert, "src"@, output, "sink"@)
}

/// The plan with the video of the page thrown away.
pub open spec fn without_video(base: PlanInfo, instance: Seq<char>, mode: StreamMode) -> PlanInfo {
    let sink = plan::member(instance, "video_sink"@);
    let from = video_from(instance, mode);
    base.add(
        plan::plain_element(sink, "fakesink"@).with("sync"@, SettingInfo::Bool(false)).with(
            "async"@,
            SettingInfo::Bool(false),
        ),
    ).link(from.0, from.1, sink, "sink"@)
}

fn add_video(parts: &mut BlockPlan, instance_id: &str, mode: StreamMode)
    ensures
        final(parts)@ == if mode.video() {
            with_video(old(parts)@, instance_id@, mode)
        } else {
            without_video(old(parts)@, instance_id@, mode)
        },
{
    let from = if mode.has_audio() {
        plan::member_id(instance_id, "cefdemux")
    } else {
        plan::member_id(instance_id, "capsfilter")
    };
    let from_pad = if mode.has_audio() {
        "video"
    } else {
        "src"
    };
    if mode.has_video() {
        let convert = plan::member_id(instance_id, "videoconvert");
        let output = plan::member_id(instance_id, "video_output");
        parts.add(ElementSpec::new(convert.as_str(), "videoconvert"));
        parts.add(ElementSpec::new(output.as_str(), "identity"));
        parts.link(from.as_str(), from_pad, convert.as_str(), "sink");
        parts.link(convert.as_str(), "src", output.as_str(), "sink");
    } else {
        let sink = plan::member_id(instance_id, "video_sink");
        let mut e = ElementSpec::new(sink.as_str(), "fakesink");
        e.set("sync", SettingValue::Bool(false));
        e.set("async", SettingValue::Bool(false));
        parts.add(e);
        parts.link(from.as_str(), from_pad, sink.as_str(), "sink");
    }
}

/// What the block is built of.
pub open spec fn page_plan(instance: Seq<char>, p: PropertyMap) -> PlanInfo {
    let mode = mode_under(p);
    let heard = if mode.audio() {
        with_audio(rendered(instance, p), instance)
    } else {
        rendered(instance, p)
    };
    if mode.video() {
        with_video(heard, instance, mode)
    } else {
        without_video(heard, instance, mode)
    }
}

impl HtmlInputBuilder {
    /// The pads that the block shows with the given properties.
    pub fn get_external_pads(&self, properties: &Properties) -> (r: Option<ExternalPads>)
        ensures
            r matches Some(pads) && pads@ == page_pads(mode_under(properties@)),
    {
        Some(make_pads(stream_mode(properties)))
    }

    /// What the block is built of with the given properties.
    pub fn build(&self, instance_id: &str, properties: &Properties) -> (r: BlockPlan)
        ensures
            r@ == page_plan(instance_id@, properties@),
    {
        let mode = stream_mode(properties);
        let page = plan::member_id(instance_id, "cefsrc");
        let filter = plan::member_id(instance_id, "capsfilter");
        let mut parts = BlockPlan::new();
        let mut e = ElementSpec::new(page.as_str(), "cefsrc");
        e.set("url", SettingValue::Text(url(properties)));
        parts.add(e);
        let mut e = ElementSpec::new(filter.as_str(), "capsfilter");
        e.set("caps", SettingValue::Caps(make_viewport(properties)));
        parts.add(e);
        parts.link(page.as_str(), "src", filter.as_str(), "sink");
        if mode.has_audio() {
            add_audio(&mut parts, instance_id);
        }
        add_video(&mut parts, instance_id, mode);
        parts
    }
}

/// Every connection inside the block is between elements of the block, and
/// every pad that the block shows is a pad of one of them.
pub proof fn page_is_connected(instance: Seq<char>, p: PropertyMap)
    ensures
        page_plan(instance, p).links_hold(),
        forall|i: int|
            0 <= i < page_pads(mode_under(p)).outputs.len() ==> page_plan(
                instance,
                p,
            ).has_element(
                plan::member(
                    instance,
                    (#[trigger] page_pads(mode_under(p)).outputs[i]).internal_element_id,
                ),
            ),
{
    broadcast use {plan::adding_keeps, plan::linking_keeps};

    let mode = mode_under(p);
    let all = page_plan(instance, p);
    assert(plan::empty_plan().links_hold());
    let base = rendered(instance, p);
    assert(base.links_hold() && base.has_element(plan::member(instance, "capsfilter"@)));
    let heard = if mode.audio() {
        with_audio(base, instance)
    } else {
        base
    };
    assert(heard.links_hold() && heard.has_element(video_from(instance, mode).0));
    assert(mode.audio() ==> heard.has_element(plan::member(instance, "audio_output"@)));
    assert(mode.audio() ==> all.has_element(plan::member(instance, "audio_output"@)));
    assert(mode.video() ==> all.has_element(plan::member(instance, "video_output"@)));
    assert forall|i: int| 0 <= i < page_pads(mode).outputs.len() implies all.has_element(
        plan::member(instance, (#[trigger] page_pads(mode).outputs[i]).internal_element_id),
    ) by {
        if i == 0 && mode.video() {
            assert(page_pads(mode).outputs[i].internal_element_id == "video_output"@);
        } else {
            assert(page_pads(mode).outputs[i].internal_element_id == "audio_output"@);
        }
    }
}

/// The names of the elements that the block is built of.
pub open spec fn page_names(mode: StreamMode) -> Seq<Seq<char>> {
    match mode {
        StreamMode::Video => seq!["cefsrc"@, "capsfilter"@, "videoconvert"@, "video_output"@],
        StreamMode::Audio => seq![
            "cefsrc"@,
            "capsfilter"@,
            "cefdemux"@,
            "audioconvert"@,
            "audioresample"@,
            "audio_output"@,
            "video_sink"@,
        ],
        StreamMode::AudioVideo => seq![
            "cefsrc"@,
            "capsfilter"@,
            "cefdemux"@,
            "audioconvert"@,
            "audioresample"@,
            "audio_output"@,
            "videoconvert"@,
            "video_output"@,
        ],
    }
}

/// No two elements of the block have the same id. Only where the page is heard
/// is its audio taken out of it.
pub proof fn page_ids_differ(instance: Seq<char>, p: PropertyMap)
    ensures
        plan::named(page_plan(instance, p), instance, page_names(mode_under(p))),
        page_plan(instance, p).ids_differ(),
        page_plan(instance, p).has_element(plan::member(instance, "cefdemux"@)) == mode_under(
            p,
        ).audio(),
{
    reveal_strlit("cefsrc");
    reveal_strlit("capsfilter");
    reveal_strlit("cefdemux");
    reveal_strlit("audioconvert");
    reveal_strlit("audioresample");
    reveal_strlit("audio_output");
    reveal_strlit("videoconvert");
    reveal_strlit("video_output");
    reveal_strlit("video_sink");
    assert("capsfilter"@[0] == 'c' && "video_sink"@[0] == 'v');
    assert("audioconvert"@[5] == 'c' && "audioconvert"@[0] == 'a');
    assert("audio_output"@[5] == '_' && "audio_output"@[0] == 'a');
    assert("videoconvert"@[5] == 'c' && "videoconvert"@[0] == 'v');
    assert("video_output"@[5] == '_' && "video_output"@[0] == 'v');
    let all = page_plan(instance, p);
    let names = page_names(mode_under(p));
    assert(plan::named(all, instance, names));
    plan::lemma_names_keep_ids_apart(all, instance, names);
    let demux = plan::member(instance, "cefdemux"@);
    if mode_under(p).audio() {
        assert(all.elements[2].id == demux);
    } else {
        assert forall|i: int| 0 <= i < all.elements.len() implies (#[trigger] all.elements[i]).id
            != demux by {
            plan::member_is_injective(instance, names[i], "cefdemux"@);
        }
    }
}

// ---------------------------------------------------------------------------
// Definition
// ---------------------------------------------------------------------------

/// Which media a page is shown as.
pub open spec fn stream_modes() -> Seq<Choice> {
    definition::no_choice()
        .push(("video"@, Some("Video"@)))
        .push(("audio_video"@, Some("Audio + Video"@)))
        .push(("audio"@, Some("Audio"@)))
}

fn stream_modes_values() -> (r: Vec<EnumValue>)
    ensures
        definition::choices(r@) == stream_modes(),
{
    let mut all = definition::no_values();
    definition::add_value(&mut all, "video", "Video");
    definition::add_value(&mut all, "audio_video", "Audio + Video");
    definition::add_value(&mut all, "audio", "Audio");
    all
}

/// How the block presents itself.
pub open spec fn page_definition() -> DefinitionInfo {
    definition::built_in_block(
        BLOCK_ID@,
        "HTML Input"@,
        "Renders a web page as a video source through Chromium, with the page's audio as an optional second output. Needs the gstcefsrc plugin, which ships in the strom-full image."@,
        "Inputs"@,
        page_pads(StreamMode::Video),
        definition::plain_looks(Some("🌐"@), 25, 20),
    ).property(
        definition::element_property(
            "url"@,
            "URL"@,
            "Page to render (http://, https://, file:// or data:)"@,
            TypeInfo::Text,
            Some(PropertyTree::Text(DEFAULT_URL@)),
            "cefsrc"@,
            "url"@,
            true,
        ),
    ).property(
        definition::block_property(
            "width"@,
            "Width"@,
            "Viewport width in pixels. The page is rendered at this size."@,
            TypeInfo::UInt,
            PropertyTree::UInt(DEFAULT_WIDTH),
        ),
    ).property(
        definition::block_property(
            "height"@,
            "Height"@,
            "Viewport height in pixels. The page is rendered at this size."@,
            TypeInfo::UInt,
            PropertyTree::UInt(DEFAULT_HEIGHT),
        ),
    ).property(
        definition::block_property(
            "framerate"@,
            "Framerate"@,
            "Frames per second the page is rendered at. Chromium caps this at 60."@,
            TypeInfo::UInt,
            PropertyTree::UInt(DEFAULT_FRAMERATE),
        ),
    ).property(
        definition::block_property(
            "stream_mode"@,
            "Stream Mode"@,
            "Which outputs the block exposes. Pages are usually silent, so video only is the default."@,
            TypeInfo::OneOf(stream_modes()),
            PropertyTree::Text("video"@),
        ),
    ).property(
        definition::element_property(
            REMOTE_CONTROL_PROPERTY@,
            "Remote Control"@,
            "Allow an operator to be handed a link that drives this page remotely - to log in, clear a consent dialog, click a tab. The instance also needs a CEF debug port configured. A session opened this way reaches every HTML source in the instance, not only this one."@,
            TypeInfo::Bool,
            Some(PropertyTree::Bool(false)),
            "_block"@,
            REMOTE_CONTROL_PROPERTY@,
            true,
        ),
    )
}

/// How the block presents itself.
pub fn html_input_definition() -> (r: BlockDefinition)
    ensures
        r@ == page_definition(),
{
    let mut d = BlockDefinition::built_in(
        BLOCK_ID,
        "HTML Input",
        "Renders a web page as a video source through Chromium, with the page's audio as an optional second output. Needs the gstcefsrc plugin, which ships in the strom-full image.",
        "Inputs",
        make_pads(StreamMode::Video),
        definition::plain_ui(Some("🌐"), 25, 20),
    );
    d.property(
        definition::for_element(
            "url",
            "URL",
            "Page to render (http://, https://, file:// or data:)",
            PropertyType::String,
            Some(PropertyValue::String(DEFAULT_URL.to_owned())),
            "cefsrc",
            "url",
            true,
        ),
    );
    d.property(
        definition::for_block(
            "width",
            "Width",
            "Viewport width in pixels. The page is rendered at this size.",
            PropertyType::UInt,
            PropertyValue::UInt(DEFAULT_WIDTH),
        ),
    );
    d.property(
        definition::for_block(
            "height",
            "Height",
            "Viewport height in pixels. The page is rendered at this size.",
            PropertyType::UInt,
            PropertyValue::UInt(DEFAULT_HEIGHT),
        ),
    );
    d.property(
        definition::for_block(
            "framerate",
            "Framerate",
            "Frames per second the page is rendered at. Chromium caps this at 60.",
            PropertyType::UInt,
            PropertyValue::UInt(DEFAULT_FRAMERATE),
        ),
    );
    d.property(
        definition::for_block(
            "stream_mode",
            "Stream Mode",
            "Which outputs the block exposes. Pages are usually silent, so video only is the default.",
            PropertyType::Enum { values: stream_modes_values() },
            PropertyValue::String("video".to_owned()),
        ),
    );
    d.property(
        definition::for_element(
            REMOTE_CONTROL_PROPERTY,
            "Remote Control",
            "Allow an operator to be handed a link that drives this page remotely - to log in, clear a consent dialog, click a tab. The instance also needs a CEF debug port configured. A session opened this way reaches every HTML source in the instance, not only this one.",
            PropertyType::Bool,
            Some(PropertyValue::Bool(false)),
            "_block",
            REMOTE_CONTROL_PROPERTY,
            true,
        ),
    );
    d
}

/// The blocks of this kind.
pub fn get_blocks() -> (r: Vec<BlockDefinition>)
    ensures
        definition::definition_infos(r@) == seq![page_definition()],
{
    definition::only(html_input_definition())
}

} // verus!
