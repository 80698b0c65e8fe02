//! Audio bridge: contributor audio carried from one flow to another at a low,
//! steady latency.
//!
//! ```text
//! Output:  audio_in → audioconvert → audioresample → capsfilter → stromaudiobridgesink
//! Input:   stromaudiobridgesrc → audio_out
//! ```
//!
//! The input holds a small backlog. After a stall it plays the late audio slightly
//! fast until it is back at the target.

use crate::blocks::definition;
use crate::blocks::definition::{
    BlockDefinition, BlockUIMetadata, DefinitionInfo, ExposedProperty, ExternalPads, LooksInfo,
    MediaType, PadsInfo, PropertyInfo, PropertyType, TypeInfo,
};
use crate::blocks::plan;
use crate::blocks::plan::{
    BlockBuildError, BlockPlan, BuildErrorInfo, CapsInfo, CapsSpec, ElementSpec, PlanInfo,
    SettingInfo, SettingValue,
};
use crate::properties;
use crate::properties::{Properties, PropertyMap, PropertyTree, PropertyValue};
use crate::text;
use vstd::prelude::*;

verus! {

/// The bridge source inside an audio bridge input.
pub const BRIDGE_ELEMENT: &'static str = "bridge";

pub const SINK_FACTORY: &'static str = "stromaudiobridgesink";

pub const SRC_FACTORY: &'static str = "stromaudiobridgesrc";

/// What the bridge can be set to. Percentages are held as the bits of their
/// double-precision form.
pub struct BridgeLimits {
    pub default_target_latency_ms: u64,
    pub min_target_latency_ms: u64,
    pub max_target_latency_ms: u64,
    pub default_max_latency_ms: u64,
    pub max_max_latency_ms: u64,
    pub default_rate_change_percent: u64,
    /// The largest rate change, as it is written.
    pub max_rate_change_percent: String,
}

impl BridgeLimits {
    /// No largest value is below the smallest.
    pub open spec fn valid(self) -> bool {
        self.min_target_latency_ms <= self.max_target_latency_ms && self.min_target_latency_ms
            <= self.max_max_latency_ms
    }
}

// ---------------------------------------------------------------------------
// Properties
// ---------------------------------------------------------------------------

/// The channel that a block with the given properties is on.
pub open spec fn channel_under(p: PropertyMap) -> Result<Seq<char>, BuildErrorInfo> {
    match properties::text_property(p, "channel"@) {
        Some(s) => if text::trimmed(s).len() > 0 {
            Ok(text::trimmed(s))
        } else {
            Err(BuildErrorInfo::InvalidConfiguration("channel name is required"@))
        },
        None => Err(BuildErrorInfo::InvalidConfiguration("channel name is required"@)),
    }
}

/// The channel that a block with the given properties is on.
pub fn channel(properties: &Properties) -> (r: Result<String, BlockBuildError>)
    ensures
        match r {
            Ok(name) => channel_under(properties@) == Ok::<Seq<char>, BuildErrorInfo>(name@),
            Err(e) => channel_under(properties@) == Err::<Seq<char>, BuildErrorInfo>(e@),
        },
{
    if let Some(s) = properties.text("channel") {
        let bare = text::trim(s.as_str());
        if !bare.as_str().is_empty() {
            return Ok(bare);
        }
    }
    Err(BlockBuildError::InvalidConfiguration("channel name is required".to_owned()))
}

/// A number that is not below zero: the one set under a name, or `fallback`.
pub open spec fn number_under(p: PropertyMap, name: Seq<char>, fallback: u64) -> u64 {
    match properties::unsigned_from(p, name, 0) {
        Some(n) => n,
        None => fallback,
    }
}

/// A number that is not below zero: the one set under a name, or `fallback`.
pub fn uint(properties: &Properties, key: &str, fallback: u64) -> (r: u64)
    ensures
        r == number_under(properties@, key@, fallback),
{
    match properties.unsigned_from(key, 0) {
        Some(n) => n,
        None => fallback,
    }
}

/// A number as it was set, before it is taken as a fraction.
#[derive(Clone, Copy, PartialEq, Eq, Structural, Debug)]
pub enum Number {
    Fraction(u64),
    Unsigned(u64),
    Signed(i64),
}

/// The number set under a name, or the fraction `fallback`.
pub open spec fn fraction_under(p: PropertyMap, name: Seq<char>, fallback: u64) -> Number {
    match text::lookup(p, name) {
        Some(PropertyTree::Float(bits)) => Number::Fraction(bits),
        Some(PropertyTree::UInt(n)) => Number::Unsigned(n),
        Some(PropertyTree::Int(n)) => Number::Signed(n),
        _ => Number::Fraction(fallback),
    }
}

/// The number set under a name, or the fraction `fallback`.
pub fn float(properties: &Properties, key: &str, fallback: u64) -> (r: Number)
    ensures
        r == fraction_under(properties@, key@, fallback),
{
    match properties.get(key) {
        Some(PropertyValue::Float(bits)) => Number::Fraction(*bits),
        Some(PropertyValue::UInt(n)) => Number::Unsigned(*n),
        Some(PropertyValue::Int(n)) => Number::Signed(*n),
        _ => Number::Fraction(fallback),
    }
}

/// The nearest number in a range.
pub open spec fn within(n: u64, least: u64, most: u64) -> u64 {
    if n < least {
        least
    } else if n > most {
        most
    } else {
        n
    }
}

fn keep_within(n: u64, least: u64, most: u64) -> (r: u64)
    requires
        least <= most,
    ensures
        r == within(n, least, most),
        least <= r <= most,
{
    if n < least {
        least
    } else if n > most {
        most
    } else {
        n
    }
}

// ---------------------------------------------------------------------------
// Output
// ---------------------------------------------------------------------------

pub struct AudioBridgeOutputBuilder;

/// What an output on a channel is built of.
pub open spec fn output_plan(instance: Seq<char>, channel: Seq<char>, caps: CapsInfo) -> PlanInfo {
    let convert = plan::member(instance, "convert"@);
    let resample = plan::member(instance, "resample"@);
    let filter = plan::member(instance, "caps"@);
    let sink = plan::member(instance, "sink"@);
    plan::empty_plan().add(plan::plain_element(convert, "audioconvert"@)).add(
        plan::plain_element(resample, "audioresample"@),
    ).add(plan::plain_element(filter, "capsfilter"@).with("caps"@, SettingInfo::Caps(caps))).add(
        plan::plain_element(sink, SINK_FACTORY@).with("channel"@, SettingInfo::Text(channel)),
    ).link(convert, "src"@, resample, "sink"@).link(resample, "src"@, filter, "sink"@).link(
        filter,
        "src"@,
        sink,
        "sink"@,
    )
}

pub open spec fn build_seen(r: Result<BlockPlan, BlockBuildError>) -> Result<
    PlanInfo,
    BuildErrorInfo,
> {
    match r {
        Ok(plan) => Ok(plan@),
        Err(e) => Err(e@),
    }
}

impl AudioBridgeOutputBuilder {
    /// What the output is built of with the given properties. `caps` is the format
    /// that the bridge carries.
    pub fn build(&self, instance_id: &str, properties: &Properties, caps: CapsSpec) -> (r: Result<
        BlockPlan,
        BlockBuildError,
    >)
        ensures
            build_seen(r) == match channel_under(properties@) {
                Ok(name) => Ok(output_plan(instance_id@, name, caps@)),
                Err(e) => Err(e),
            },
    {
        let name = match channel(properties) {
            Ok(name) => name,
            Err(e) => {
                return Err(e);
            },
        };
        let convert = plan::member_id(instance_id, "convert");
        let resample = plan::member_id(instance_id, "resample");
        let filter = plan::member_id(instance_id, "caps");
        let sink = plan::member_id(instance_id, "sink");
        let mut parts = BlockPlan::new();
        parts.add(ElementSpec::new(convert.as_str(), "audioconvert"));
        parts.add(ElementSpec::new(resample.as_str(), "audioresample"));
        let mut e = ElementSpec::new(filter.as_str(), "capsfilter");
        e.set("caps", SettingValue::Caps(caps));
        parts.add(e);
        let mut e = ElementSpec::new(sink.as_str(), SINK_FACTORY);
        e.set("channel", SettingValue::Text(name));
        parts.add(e);
        parts.link(convert.as_str(), "src", resample.as_str(), "sink");
        parts.link(resample.as_str(), "src", filter.as_str(), "sink");
        parts.link(filter.as_str(), "src", sink.as_str(), "sink");
        Ok(parts)
    }
}

// ---------------------------------------------------------------------------
// Input
// ---------------------------------------------------------------------------

pub struct AudioBridgeInputBuilder;

/// The backlog that an input with the given properties holds.
pub open spec fn target_latency(p: PropertyMap, limits: BridgeLimits) -> u64 {
    within(
        number_under(p, "target_latency_ms"@, limits.default_target_latency_ms),
        limits.min_target_latency_ms,
        limits.max_target_latency_ms,
    )
}

/// The backlog above which an input with the given properties skips.
pub open spec fn max_latency(p: PropertyMap, limits: BridgeLimits) -> u64 {
    within(
        number_under(p, "max_latency_ms"@, limits.default_max_latency_ms),
        limits.min_target_latency_ms,
        limits.max_max_latency_ms,
    )
}

/// What an input on a channel is built of.
pub open spec fn input_plan(
    instance: Seq<char>,
    channel: Seq<char>,
    p: PropertyMap,
    max_rate: u64,
    limits: BridgeLimits,
) -> PlanInfo {
    plan::empty_plan().add(
        plan::plain_element(plan::member(instance, BRIDGE_ELEMENT@), SRC_FACTORY@).labelled(
            "audio bridge"@,
        ).with("channel"@, SettingInfo::Text(channel)).with(
            "target-latency"@,
            SettingInfo::U32(target_latency(p, limits) as u32),
        ).with("max-rate-change"@, SettingInfo::Float(max_rate)).with(
            "max-latency"@,
            SettingInfo::U32(max_latency(p, limits) as u32),
        ),
    )
}

/// What an input is built of, or why it cannot be built.
pub open spec fn input_build(
    instance: Seq<char>,
    p: PropertyMap,
    max_rate: u64,
    scaletempo_found: bool,
    limits: BridgeLimits,
) -> Result<PlanInfo, BuildErrorInfo> {
    if !scaletempo_found {
        Err(
            BuildErrorInfo::ElementCreation("scaletempo (gst-plugins-good) is not installed"@),
        )
    } else {
        match channel_under(p) {
            Ok(name) => Ok(input_plan(instance, name, p, max_rate, limits)),
            Err(e) => Err(e),
        }
    }
}

impl AudioBridgeInputBuilder {
    /// The rate change that an input with the given properties may use, before it
    /// is brought into range.
    pub fn rate_change(&self, properties: &Properties, limits: &BridgeLimits) -> (r: Number)
        ensures
            r == fraction_under(
                properties@,
                "max_rate_change_percent"@,
                limits.default_rate_change_percent,
            ),
    {
        float(properties, "max_rate_change_percent", limits.default_rate_change_percent)
    }

    /// What the input is built of with the given properties. `max_rate` holds the
    /// bits of the rate change in range.
    pub fn build(
        &self,
        instance_id: &str,
        properties: &Properties,
        max_rate: u64,
        scaletempo_found: bool,
        limits: &BridgeLimits,
    ) -> (r: Result<BlockPlan, BlockBuildError>)
        requires
            limits.valid(),
        ensures
            build_seen(r) == input_build(
                instance_id@,
                properties@,
                max_rate,
                scaletempo_found,
                *limits,
            ),
    {
        if !scaletempo_found {
            return Err(
                BlockBuildError::ElementCreation(
                    "scaletempo (gst-plugins-good) is not installed".to_owned(),
                ),
            );
        }
        let name = match channel(properties) {
            Ok(name) => name,
            Err(e) => {
                return Err(e);
            },
        };
        let target = keep_within(
            uint(properties, "target_latency_ms", limits.default_target_latency_ms),
            limits.min_target_latency_ms,
            limits.max_target_latency_ms,
        );
        let most = keep_within(
            uint(properties, "max_latency_ms", limits.default_max_latency_ms),
            limits.min_target_latency_ms,
            limits.max_max_latency_ms,
        );
        let id = plan::member_id(instance_id, BRIDGE_ELEMENT);
        let mut parts = BlockPlan::new();
        let mut e = ElementSpec::new(id.as_str(), SRC_FACTORY);
        e.label("audio bridge");
        e.set("channel", SettingValue::Text(name));
        e.set("target-latency", SettingValue::U32(target as u32));
        e.set("max-rate-change", SettingValue::Float(max_rate));
        e.set("max-latency", SettingValue::U32(most as u32));
        parts.add(e);
        Ok(parts)
    }
}

// ---------------------------------------------------------------------------
// Definitions
// ---------------------------------------------------------------------------

pub open spec fn channel_property_info(description: Seq<char>) -> PropertyInfo {
    definition::element_property(
        "channel"@,
        "Channel"@,
        description,
        TypeInfo::Text,
        None,
        "_block"@,
        "channel"@,
        false,
    )
}

/// The property that puts a block on a channel.
pub fn channel_property(description: &str) -> (r: ExposedProperty)
    ensures
        r@ == channel_property_info(description@),
{
    definition::for_element(
        "channel",
        "Channel",
        description,
        PropertyType::String,
        None,
        "_block",
        "channel",
        false,
    )
}

/// The colours of blocks between flows.
pub open spec fn bridge_looks(icon: Seq<char>) -> LooksInfo {
    LooksInfo {
        icon: Some(icon),
        color: None,
        width_tenths: Some(15),
        height_tenths: Some(15),
        light_fill_color: Some("#FEF0E0"@),
        light_stroke_color: Some("#C07020"@),
        dark_fill_color: Some("#352A1E"@),
        dark_stroke_color: Some("#E8A050"@),
    }
}

/// The looks of a bridge block.
pub fn ui_metadata(icon: &str) -> (r: BlockUIMetadata)
    ensures
        r@ == bridge_looks(icon@),
{
    BlockUIMetadata {
        icon: Some(icon.to_owned()),
        color: None,
        width_tenths: Some(15),
        height_tenths: Some(15),
        light_fill_color: Some("#FEF0E0".to_owned()),
        light_stroke_color: Some("#C07020".to_owned()),
        dark_fill_color: Some("#352A1E".to_owned()),
        dark_stroke_color: Some("#E8A050".to_owned()),
    }
}

pub open spec fn output_pads() -> PadsInfo {
    definition::no_pads().input(
        definition::pad_info(None, "audio_in"@, MediaType::Audio, "convert"@, "sink"@),
    )
}

pub open spec fn input_pads() -> PadsInfo {
    definition::no_pads().output(
        definition::pad_info(None, "audio_out"@, MediaType::Audio, BRIDGE_ELEMENT@, "src"@),
    )
}

/// How an output presents itself. `id` is its definition id.
pub open spec fn output_info(id: Seq<char>) -> DefinitionInfo {
    definition::built_in_block(
        id,
        "Audio Bridge Output"@,
        "Sends audio to an Audio Bridge Input in another flow, for low-latency monitoring such as contributors hearing each other. Never holds up this flow."@,
        "Inter-Pipeline"@,
        output_pads(),
        bridge_looks("📤"@),
    ).property(
        channel_property_info(
            "Channel name. The Audio Bridge Input with the same name receives this audio; one output and one input per channel."@,
        ),
    )
}

/// How an output presents itself.
pub fn output_definition(id: &str) -> (r: BlockDefinition)
    ensures
        r@ == output_info(id@),
{
    let mut pads = ExternalPads::none();
    pads.input(
        definition::external_pad(None, "audio_in", MediaType::Audio, "convert", "sink"),
    );
    let mut d = BlockDefinition::built_in(
        id,
        "Audio Bridge Output",
        "Sends audio to an Audio Bridge Input in another flow, for low-latency monitoring such as contributors hearing each other. Never holds up this flow.",
        "Inter-Pipeline",
        pads,
        ui_metadata("📤"),
    );
    d.property(
        channel_property(
            "Channel name. The Audio Bridge Input with the same name receives this audio; one output and one input per channel.",
        ),
    );
    d
}

/// What the target latency is for, with its range.
pub open spec fn target_description(limits: BridgeLimits) -> Seq<char> {
    "Audio the bridge keeps in hand against late input, "@ + text::decimal(
        limits.min_target_latency_ms as nat,
    ) + "-"@ + text::decimal(limits.max_target_latency_ms as nat)
        + " ms. Input stalls shorter than this pass without a gap; longer ones leave a gap of stall minus target."@
}

/// What the rate change is for, with its range.
pub open spec fn rate_description(limits: BridgeLimits) -> Seq<char> {
    "How far playback may speed up or slow down to return to the target, 0-"@
        + limits.max_rate_change_percent@
        + " %. At 5 % a 400 ms backlog drains in about 8 s, at 10 % in about 4 s, but a faster drain leaves less in hand for the next hiccup, so a lossy link loses more audio. The catch-up is inaudible on speech at 5 % and at most very slightly noticeable at 10 %. 0 turns time-scaling off."@
}

/// How an input presents itself. `id` is its definition id.
pub open spec fn input_info(id: Seq<char>, limits: BridgeLimits) -> DefinitionInfo {
    definition::built_in_block(
        id,
        "Audio Bridge Input"@,
        "Receives audio from an Audio Bridge Output at a low target latency. Covers a stall with silence and then plays slightly fast, without changing pitch, until back at the target. For monitoring only: never route it to a program output or a recording."@,
        "Inter-Pipeline"@,
        input_pads(),
        bridge_looks("📥"@),
    ).property(
        channel_property_info("Channel name of the Audio Bridge Output to receive."@),
    ).property(
        definition::element_property(
            "target_latency_ms"@,
            "Target Latency (ms)"@,
            target_description(limits),
            TypeInfo::UInt,
            Some(PropertyTree::UInt(limits.default_target_latency_ms)),
            BRIDGE_ELEMENT@,
            "target-latency"@,
            true,
        ),
    ).property(
        definition::element_property(
            "max_rate_change_percent"@,
            "Max Rate Change (%)"@,
            rate_description(limits),
            TypeInfo::Float,
            Some(PropertyTree::Float(limits.default_rate_change_percent)),
            BRIDGE_ELEMENT@,
            "max-rate-change"@,
            true,
        ),
    ).property(
        definition::element_property(
            "max_latency_ms"@,
            "Max Latency (ms)"@,
            "Backlog above which the bridge skips back to the target instead of draining it. Raised if it is set too close to the target to leave the bridge room to drain."@,
            TypeInfo::UInt,
            Some(PropertyTree::UInt(limits.default_max_latency_ms)),
            BRIDGE_ELEMENT@,
            "max-latency"@,
            true,
        ),
    )
}

/// How an input presents itself.
pub fn input_definition(id: &str, limits: &BridgeLimits) -> (r: BlockDefinition)
    ensures
        r@ == input_info(id@, *limits),
{
    let mut pads = ExternalPads::none();
    pads.output(
        definition::external_pad(None, "audio_out", MediaType::Audio, BRIDGE_ELEMENT, "src"),
    );
    let mut d = BlockDefinition::built_in(
        id,
        "Audio Bridge Input",
        "Receives audio from an Audio Bridge Output at a low target latency. Covers a stall with silence and then plays slightly fast, without changing pitch, until back at the target. For monitoring only: never route it to a program output or a recording.",
        "Inter-Pipeline",
        pads,
        ui_metadata("📥"),
    );
    d.property(channel_property("Channel name of the Audio Bridge Output to receive."));
    let least = text::u64_text(limits.min_target_latency_ms);
    let most = text::u64_text(limits.max_target_latency_ms);
    let description = "Audio the bridge keeps in hand against late input, ".to_owned().concat(
        least.as_str(),
    ).concat("-").concat(most.as_str()).concat(
        " ms. Input stalls shorter than this pass without a gap; longer ones leave a gap of stall minus target.",
    );
    d.property(
        definition::for_element(
            "target_latency_ms",
            "Target Latency (ms)",
            description.as_str(),
            PropertyType::UInt,
            Some(PropertyValue::UInt(limits.default_target_latency_ms)),
            BRIDGE_ELEMENT,
            "target-latency",
            true,
        ),
    );
    let description =
        "How far playback may speed up or slow down to return to the target, 0-".to_owned().concat(
        limits.max_rate_change_percent.as_str(),
    ).concat(
        " %. At 5 % a 400 ms backlog drains in about 8 s, at 10 % in about 4 s, but a faster drain leaves less in hand for the next hiccup, so a lossy link loses more audio. The catch-up is inaudible on speech at 5 % and at most very slightly noticeable at 10 %. 0 turns time-scaling off.",
    );
    d.property(
        definition::for_element(
            "max_rate_change_percent",
            "Max Rate Change (%)",
            description.as_str(),
            PropertyType::Float,
            Some(PropertyValue::Float(limits.default_rate_change_percent)),
            BRIDGE_ELEMENT,
            "max-rate-change",
            true,
        ),
    );
    d.property(
        definition::for_element(
            "max_latency_ms",
            "Max Latency (ms)",
            "Backlog above which the bridge skips back to the target instead of draining it. Raised if it is set too close to the target to leave the bridge room to drain.",
            PropertyType::UInt,
            Some(PropertyValue::UInt(limits.default_max_latency_ms)),
            BRIDGE_ELEMENT,
            "max-latency",
            true,
        ),
    );
    d
}

/// The blocks of this kind, under the given definition ids.
pub fn get_blocks(output_id: &str, input_id: &str, limits: &BridgeLimits) -> (r: Vec<
    BlockDefinition,
>)
    ensures
        definition::definition_infos(r@) == seq![output_info(output_id@), input_info(
            input_id@,
            *limits,
        )],
{
    definition::both(output_definition(output_id), input_definition(input_id, limits))
}

// ---------------------------------------------------------------------------
// Laws
// ---------------------------------------------------------------------------

/// Every connection inside the blocks is between elements of them, and every pad
/// that they show is a pad of one of their elements.
pub proof fn bridge_is_connected(
    instance: Seq<char>,
    channel: Seq<char>,
    caps: CapsInfo,
    p: PropertyMap,
    max_rate: u64,
    limits: BridgeLimits,
)
    ensures
        output_plan(instance, channel, caps).links_hold(),
        output_plan(instance, channel, caps).has_element(
            plan::member(instance, output_pads().inputs[0].internal_element_id),
        ),
        input_plan(instance, channel, p, max_rate, limits).links_hold(),
        input_plan(instance, channel, p, max_rate, limits).has_element(
            plan::member(instance, input_pads().outputs[0].internal_element_id),
        ),
{
    broadcast use {plan::adding_keeps, plan::linking_keeps};

    assert(plan::empty_plan().links_hold());
    assert(output_plan(instance, channel, caps).has_element(plan::member(instance, "convert"@)));
    assert(input_plan(instance, channel, p, max_rate, limits).has_element(
        plan::member(instance, BRIDGE_ELEMENT@),
    ));
}

/// No two elements of the output have the same id.
pub proof fn bridge_ids_differ(instance: Seq<char>, channel: Seq<char>, caps: CapsInfo)
    ensures
        output_plan(instance, channel, caps).ids_differ(),
{
    reveal_strlit("convert");
    reveal_strlit("resample");
    reveal_strlit("caps");
    reveal_strlit("sink");
    assert("caps"@[0] == 'c' && "sink"@[0] == 's');
    let names = seq!["convert"@, "resample"@, "caps"@, "sink"@];
    plan::lemma_names_keep_ids_apart(output_plan(instance, channel, caps), instance, names);
}

/// The latencies that an input is built with are in range, whatever was set.
pub proof fn latencies_are_in_range(p: PropertyMap, limits: BridgeLimits)
    requires
        limits.valid(),
    ensures
        limits.min_target_latency_ms <= target_latency(p, limits)
            <= limits.max_target_latency_ms,
        limits.min_target_latency_ms <= max_latency(p, limits) <= limits.max_max_latency_ms,
{
}

/// A channel's name is not empty, and neither begins nor ends with white space.
pub proof fn channel_has_no_outer_space(p: PropertyMap)
    ensures
        channel_under(p) matches Ok(name) ==> name.len() > 0 && !text::is_white_space(name[0])
            && !text::is_white_space(name.last()),
{
    if let Some(s) = properties::text_property(p, "channel"@) {
        lemma_trimmed(s);
    }
}

proof fn lemma_trim_start(s: Seq<char>)
    ensures
        text::trim_start(s).len() > 0 ==> !text::is_white_space(text::trim_start(s)[0]),
    decreases s.len(),
{
    if s.len() > 0 && text::is_white_space(s[0]) {
        lemma_trim_start(s.skip(1));
    }
}

proof fn lemma_trim_end(s: Seq<char>)
    ensures
        text::trim_end(s).len() > 0 ==> !text::is_white_space(text::trim_end(s).last())
            && text::trim_end(s)[0] == s[0],
    decreases s.len(),
{
    if s.len() > 0 && text::is_white_space(s.last()) {
        lemma_trim_end(s.drop_last());
    }
}

proof fn lemma_trimmed(s: Seq<char>)
    ensures
        text::trimmed(s).len() > 0 ==> !text::is_white_space(text::trimmed(s)[0])
            && !text::is_white_space(text::trimmed(s).last()),
{
    lemma_trim_start(s);
    lemma_trim_end(text::trim_start(s));
}

} // verus!
