//! Time offset: shifts the timestamps of what passes through.
//!
//! A single `identity` element whose source pad carries an offset. Caps pass
//! through untouched, so the block can sit on an audio or a video branch.
//!
//! The offset lives on the pad and not in a property of the element. A change of
//! `offset_ms` is therefore intercepted before it would be set on the element, and
//! so is a read of it.

use crate::blocks::definition;
use crate::blocks::definition::{
    BlockDefinition, DefinitionInfo, ExternalPads, MediaType, PadsInfo, PropertyType, TypeInfo,
};
use crate::blocks::plan;
use crate::blocks::plan::{BlockPlan, ElementSpec, PlanInfo, SettingInfo, SettingValue};
use crate::properties::{Properties, PropertyMap, PropertyTree, PropertyValue, FLOAT_ZERO};
use crate::text;
use vstd::prelude::*;

verus! {

/// The element of the block, within the block.
pub const OFFSET_ELEMENT_SUFFIX: &'static str = "offset_identity";

/// How the id of the block's element ends.
pub const OFFSET_ELEMENT_ID_TAIL: &'static str = ":offset_identity";

/// The property that holds the offset.
pub const OFFSET_PROPERTY: &'static str = "offset_ms";

/// A number of milliseconds: whole, or the bits of its double-precision form.
#[derive(Clone, Copy, PartialEq, Eq, Structural, Debug)]
pub enum Milliseconds {
    Whole(i64),
    Fraction(u64),
}

/// The milliseconds that a value stands for, if it is a number that an offset can
/// be.
pub open spec fn milliseconds_in(value: PropertyTree) -> Option<Milliseconds> {
    match value {
        PropertyTree::Float(bits) => Some(Milliseconds::Fraction(bits)),
        PropertyTree::Int(n) => Some(Milliseconds::Whole(n)),
        _ => None,
    }
}

fn read_milliseconds(value: &PropertyValue) -> (r: Option<Milliseconds>)
    ensures
        r == milliseconds_in(value@),
{
    match value {
        PropertyValue::Float(bits) => Some(Milliseconds::Fraction(*bits)),
        PropertyValue::Int(n) => Some(Milliseconds::Whole(*n)),
        _ => None,
    }
}

/// The offset of a block with the given properties.
pub open spec fn offset_under(p: PropertyMap) -> Milliseconds {
    match text::lookup(p, OFFSET_PROPERTY@) {
        Some(value) => match milliseconds_in(value) {
            Some(ms) => ms,
            None => Milliseconds::Fraction(FLOAT_ZERO),
        },
        None => Milliseconds::Fraction(FLOAT_ZERO),
    }
}

/// The offset of a block with the given properties.
pub fn parse_offset_ms(properties: &Properties) -> (r: Milliseconds)
    ensures
        r == offset_under(properties@),
{
    match properties.get(OFFSET_PROPERTY) {
        Some(value) => match read_milliseconds(value) {
            Some(ms) => ms,
            None => Milliseconds::Fraction(FLOAT_ZERO),
        },
        None => Milliseconds::Fraction(FLOAT_ZERO),
    }
}

// ---------------------------------------------------------------------------
// Live changes
// ---------------------------------------------------------------------------

/// Whether an element is that of a time offset block.
pub open spec fn holds_offset(element_id: Seq<char>) -> bool {
    text::has_suffix(element_id, OFFSET_ELEMENT_ID_TAIL@)
}

/// Whether an element is that of a time offset block.
pub fn is_offset_element(element_id: &str) -> (r: bool)
    ensures
        r == holds_offset(element_id@),
{
    text::ends_with(element_id, OFFSET_ELEMENT_ID_TAIL)
}

/// Whether a property of an element is the offset of a time offset block.
pub open spec fn is_offset(element_id: Seq<char>, prop_name: Seq<char>) -> bool {
    prop_name == OFFSET_PROPERTY@ && holds_offset(element_id)
}

/// What becomes of a change of a property on a running flow.
pub struct LiveOffset {
    /// The property is the offset of a time offset block: it is not set on the
    /// element as other properties are.
    pub handled: bool,
    /// The offset to give to the element's source pad, if the value is a number.
    pub offset: Option<Milliseconds>,
}

/// What becomes of a change of a property on a running flow.
pub fn try_apply_live_offset(
    element_id: &str,
    prop_name: &str,
    value: &PropertyValue,
) -> (r: LiveOffset)
    ensures
        r.handled == is_offset(element_id@, prop_name@),
        r.offset == if is_offset(element_id@, prop_name@) {
            milliseconds_in(value@)
        } else {
            None
        },
{
    if text::same(prop_name, OFFSET_PROPERTY) && is_offset_element(element_id) {
        LiveOffset { handled: true, offset: read_milliseconds(value) }
    } else {
        LiveOffset { handled: false, offset: None }
    }
}

/// Whether a read of a property is answered from the offset of the element's
/// source pad.
pub fn try_read_live_offset(element_id: &str, prop_name: &str) -> (r: bool)
    ensures
        r == is_offset(element_id@, prop_name@),
{
    text::same(prop_name, OFFSET_PROPERTY) && is_offset_element(element_id)
}

/// The property to add to a listing of an element's own properties, for the
/// offset of its source pad.
pub fn live_offset_property_entry(element_id: &str) -> (r: Option<String>)
    ensures
        r is Some == holds_offset(element_id@),
        r matches Some(name) ==> name@ == OFFSET_PROPERTY@,
{
    if is_offset_element(element_id) {
        Some(OFFSET_PROPERTY.to_owned())
    } else {
        None
    }
}

// ---------------------------------------------------------------------------
// Building
// ---------------------------------------------------------------------------

pub struct TimeOffsetBuilder;

/// What the block is built of, and the offset of its element's source pad.
pub struct OffsetBuild {
    pub plan: BlockPlan,
    pub offset: Milliseconds,
}

/// What the block is built of.
pub open spec fn offset_plan(instance: Seq<char>) -> PlanInfo {
    plan::empty_plan().add(
        plan::plain_element(plan::member(instance, OFFSET_ELEMENT_SUFFIX@), "identity"@).with(
            "silent"@,
            SettingInfo::Bool(true),
        ),
    )
}

/// What the block is built of with the given properties.
pub fn build_offset(instance_id: &str, properties: &Properties) -> (r: OffsetBuild)
    ensures
        r.plan@ == offset_plan(instance_id@),
        r.offset == offset_under(properties@),
{
    let element_id = plan::member_id(instance_id, OFFSET_ELEMENT_SUFFIX);
    let mut parts = BlockPlan::new();
    let mut e = ElementSpec::new(element_id.as_str(), "identity");
    e.set("silent", SettingValue::Bool(true));
    parts.add(e);
    OffsetBuild { plan: parts, offset: parse_offset_ms(properties) }
}

impl TimeOffsetBuilder {
    /// What the block is built of with the given properties.
    pub fn build(&self, instance_id: &str, properties: &Properties) -> (r: OffsetBuild)
        ensures
            r.plan@ == offset_plan(instance_id@),
            r.offset == offset_under(properties@),
    {
        build_offset(instance_id, properties)
    }
}

// ---------------------------------------------------------------------------
// Definition
// ---------------------------------------------------------------------------

/// The pads of the block.
pub open spec fn offset_pads() -> PadsInfo {
    definition::no_pads().input(
        definition::pad_info(
            None,
            "in"@,
            MediaType::Generic,
            OFFSET_ELEMENT_SUFFIX@,
            "sink"@,
        ),
    ).output(
        definition::pad_info(
            None,
            "out"@,
            MediaType::Generic,
            OFFSET_ELEMENT_SUFFIX@,
            "src"@,
        ),
    )
}

fn make_pads() -> (r: ExternalPads)
    ensures
        r@ == offset_pads(),
{
    let mut pads = ExternalPads::none();
    pads.input(
        definition::external_pad(None, "in", MediaType::Generic, OFFSET_ELEMENT_SUFFIX, "sink"),
    );
    pads.output(
        definition::external_pad(None, "out", MediaType::Generic, OFFSET_ELEMENT_SUFFIX, "src"),
    );
    pads
}

/// How the block presents itself.
pub open spec fn offset_definition() -> DefinitionInfo {
    definition::built_in_block(
        "builtin.time_offset"@,
        "Time Offset"@,
        "Shifts buffer timestamps via GStreamer pad-offset. Media-agnostic — works for audio or video. Use for lipsync between audio and video, or to give different output branches different latency budgets. Live-updatable; the pipeline does not need to be restarted."@,
        "Effects"@,
        offset_pads(),
        definition::plain_looks(Some("⏱"@), 15, 10),
    ).property(
        definition::element_property(
            OFFSET_PROPERTY@,
            "Offset (ms)"@,
            "Buffer time-shift in milliseconds. Positive shifts the stream later (delay); negative shifts it earlier (advance, only meaningful when upstream buffering can absorb the shift)."@,
            TypeInfo::Float,
            Some(PropertyTree::Float(FLOAT_ZERO)),
            OFFSET_ELEMENT_SUFFIX@,
            OFFSET_PROPERTY@,
            true,
        ),
    )
}

/// How the block presents itself.
pub fn time_offset_definition() -> (r: BlockDefinition)
    ensures
        r@ == offset_definition(),
{
    let mut d = BlockDefinition::built_in(
        "builtin.time_offset",
        "Time Offset",
        "Shifts buffer timestamps via GStreamer pad-offset. Media-agnostic — works for audio or video. Use for lipsync between audio and video, or to give different output branches different latency budgets. Live-updatable; the pipeline does not need to be restarted.",
        "Effects",
        make_pads(),
        definition::plain_ui(Some("⏱"), 15, 10),
    );
    d.property(
        definition::for_element(
            OFFSET_PROPERTY,
            "Offset (ms)",
            "Buffer time-shift in milliseconds. Positive shifts the stream later (delay); negative shifts it earlier (advance, only meaningful when upstream buffering can absorb the shift).",
            PropertyType::Float,
            Some(PropertyValue::Float(FLOAT_ZERO)),
            OFFSET_ELEMENT_SUFFIX,
            OFFSET_PROPERTY,
            true,
        ),
    );
    d
}

/// The blocks of this kind.
pub fn get_blocks() -> (r: Vec<BlockDefinition>)
    ensures
        definition::definition_infos(r@) == seq![offset_definition()],
{
    definition::only(time_offset_definition())
}

// ---------------------------------------------------------------------------
// Laws
// ---------------------------------------------------------------------------

/// The element that the block is built of is recognised as the block's, under
/// the property that its definition exposes, and every pad that the block shows
/// is a pad of it.
pub proof fn built_element_is_recognised(instance: Seq<char>)
    ensures
        offset_plan(instance).links_hold(),
        is_offset(
            plan::member(instance, offset_definition().exposed_properties[0].element_id),
            offset_definition().exposed_properties[0].property_name,
        ),
        offset_plan(instance).has_element(
            plan::member(instance, offset_pads().inputs[0].internal_element_id),
        ),
        offset_plan(instance).has_element(
            plan::member(instance, offset_pads().outputs[0].internal_element_id),
        ),
        forall|i: int|
            0 <= i < offset_plan(instance).elements.len() ==> holds_offset(
                (#[trigger] offset_plan(instance).elements[i]).id,
            ),
{
    reveal_strlit("offset_identity");
    reveal_strlit(":offset_identity");
    reveal_strlit(":");
    let id = plan::member(instance, OFFSET_ELEMENT_SUFFIX@);
    assert(id.subrange(id.len() - OFFSET_ELEMENT_ID_TAIL@.len(), id.len() as int)
        =~= OFFSET_ELEMENT_ID_TAIL@);
    assert(offset_plan(instance).elements[0].id == id);
}

} // verus!
