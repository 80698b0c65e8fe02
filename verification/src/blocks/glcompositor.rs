//! The compositor: several video inputs, each placed, sized and blended on one
//! canvas by the graphics processor.
//!
//! ```text
//! glupload_N → mixer → gldownload → capsfilter
//! ```
//!
//! The pads of the mixer are requested and set before anything runs. Their
//! names are the mixer's to give, so the inputs are connected once they are
//! known.

use crate::blocks::definition;
use crate::blocks::definition::{
    BlockDefinition, Choice, DefinitionInfo, EnumValue, ExposedProperty, ExternalPads, LooksInfo,
    MediaType, PadInfo, PadsInfo, PropertyInfo, PropertyType, TypeInfo,
};
use crate::blocks::plan;
use crate::blocks::plan::{
    BlockPlan, ElementPlan, ElementSpec, PadRequest, PadRequestInfo, PlanInfo, SettingInfo,
    SettingValue, Settings, SettingsInfo,
};
use crate::properties;
use crate::properties::{Properties, PropertyMap, PropertyTree, PropertyValue, FLOAT_ONE};
use crate::text;
use vstd::prelude::*;

verus! {

pub const BLOCK_ID: &'static str = "builtin.glcompositor";

/// The width or height that stands for the input's own.
pub const SOURCE_SIZE: i64 = -1;

pub struct GLCompositorBuilder;

// ---------------------------------------------------------------------------
// Properties
// ---------------------------------------------------------------------------

/// A number between one and `most`: the low half of the one set under a name,
/// if that is not below one, else `fallback`.
pub open spec fn size_under(p: PropertyMap, name: Seq<char>, fallback: u32, most: u32) -> u32 {
    let n = match properties::unsigned_from(p, name, 1) {
        Some(n) => n as u32,
        None => fallback,
    };
    if n < 1 {
        1
    } else if n > most {
        most
    } else {
        n
    }
}

fn read_size(props: &Properties, name: &str, fallback: u32, most: u32) -> (r: u32)
    ensures
        r == size_under(props@, name@, fallback, most),
{
    let n: u32 = match props.unsigned_from(name, 1) {
        Some(n) => n as u32,
        None => fallback,
    };
    if n < 1 {
        1
    } else if n > most {
        most
    } else {
        n
    }
}

/// How many inputs the properties ask for.
pub open spec fn inputs_under(p: PropertyMap) -> nat {
    match properties::unsigned_from(p, "num_inputs"@, 1) {
        Some(n) => if n < 1 {
            1
        } else if n > 16 {
            16
        } else {
            n as nat
        },
        None => 2,
    }
}

/// How many inputs the properties ask for.
pub fn parse_num_inputs(props: &Properties) -> (r: usize)
    ensures
        r == inputs_under(props@),
        1 <= r <= 16,
{
    match props.unsigned_from("num_inputs", 1) {
        Some(n) => if n < 1 {
            1
        } else if n > 16 {
            16
        } else {
            n as usize
        },
        None => 2,
    }
}

/// The width of the canvas.
pub fn parse_output_width(props: &Properties) -> (r: u32)
    ensures
        r == size_under(props@, "output_width"@, 1920, 7680),
{
    read_size(props, "output_width", 1920, 7680)
}

/// The height of the canvas.
pub fn parse_output_height(props: &Properties) -> (r: u32)
    ensures
        r == size_under(props@, "output_height"@, 1080, 4320),
{
    read_size(props, "output_height", 1080, 4320)
}

/// What lies behind the inputs: black unless one of the other choices is set.
pub open spec fn background_under(p: PropertyMap) -> Seq<char> {
    match properties::text_property(p, "background"@) {
        Some(s) => if s == "checker"@ || s == "white"@ || s == "transparent"@ {
            s
        } else {
            "black"@
        },
        None => "black"@,
    }
}

/// What lies behind the inputs.
pub fn parse_background(props: &Properties) -> (r: String)
    ensures
        r@ == background_under(props@),
{
    match props.text("background") {
        Some(s) => if text::same(s.as_str(), "checker") || text::same(s.as_str(), "white")
            || text::same(s.as_str(), "transparent") {
            s
        } else {
            "black".to_owned()
        },
        None => "black".to_owned(),
    }
}

/// The name of a property of an input.
pub open spec fn input_name(i: int, tail: Seq<char>) -> Seq<char> {
    "input_"@ + text::decimal(i as nat) + tail
}

fn input_key(i: usize, tail: &str) -> (r: String)
    ensures
        r@ == input_name(i as int, tail@),
{
    plan::numbered_name("input_", i).concat(tail)
}

/// A latency in milliseconds, where one is set at all. What is no number of
/// them counts as none.
pub open spec fn latency_under(p: PropertyMap, name: Seq<char>) -> Option<u64> {
    match text::lookup(p, name) {
        Some(PropertyTree::UInt(n)) => Some(n),
        Some(PropertyTree::Int(n)) => if n >= 0 {
            Some(n as u64)
        } else {
            Some(0)
        },
        Some(_) => Some(0),
        None => None,
    }
}

/// A latency can be written in nanoseconds.
pub open spec fn latency_fits(p: PropertyMap, name: Seq<char>) -> bool {
    latency_under(p, name) matches Some(ms) ==> ms * 1_000_000 <= u64::MAX
}

fn read_latency(props: &Properties, name: &str) -> (r: Option<u64>)
    ensures
        r == latency_under(props@, name@),
{
    match props.get(name) {
        Some(PropertyValue::UInt(n)) => Some(*n),
        Some(PropertyValue::Int(n)) => if *n >= 0 {
            Some(*n as u64)
        } else {
            Some(0)
        },
        Some(_) => Some(0),
        None => None,
    }
}

// ---------------------------------------------------------------------------
// Pads
// ---------------------------------------------------------------------------

/// The pad of an input, which enters where it is uploaded.
pub open spec fn input_pad(i: int) -> PadInfo {
    definition::pad_info(
        None,
        plan::numbered("video_in_"@, i),
        MediaType::Video,
        plan::numbered("glupload_"@, i),
        "sink"@,
    )
}

/// The pads of so many inputs, and that of the canvas.
pub open spec fn compositor_pads(n: nat) -> PadsInfo {
    PadsInfo {
        inputs: Seq::new(n, |i: int| input_pad(i)),
        outputs: seq![
            definition::pad_info(
                None,
                "video_out"@,
                MediaType::Video,
                "capsfilter"@,
                "src"@,
            ),
        ],
    }
}

fn make_pads(n: usize) -> (r: ExternalPads)
    ensures
        r@ == compositor_pads(n as nat),
{
    let mut pads = ExternalPads::none();
    let mut i: usize = 0;
    while i < n
        invariant
            i <= n,
            pads@.inputs =~= Seq::new(i as nat, |k: int| input_pad(k)),
            pads@.outputs =~= Seq::<PadInfo>::empty(),
        decreases n - i,
    {
        let name = plan::numbered_name("video_in_", i);
        let inside = plan::numbered_name("glupload_", i);
        pads.input(
            definition::external_pad(
                None,
                name.as_str(),
                MediaType::Video,
                inside.as_str(),
                "sink",
            ),
        );
        i += 1;
    }
    pads.output(
        definition::external_pad(None, "video_out", MediaType::Video, "capsfilter", "src"),
    );
    proof {
        assert(pads@.outputs =~= compositor_pads(n as nat).outputs);
    }
    pads
}

// ---------------------------------------------------------------------------
// Elements
// ---------------------------------------------------------------------------

/// A number as it is set on a pad.
pub open spec fn written(n: int) -> SettingInfo {
    SettingInfo::Parsed(text::decimal_int(n))
}

/// What an input lies over, unless it is set: the inputs before it.
pub open spec fn zorder_under(p: PropertyMap, i: int) -> u32 {
    match properties::unsigned_from(p, input_name(i, "_zorder"@), 0) {
        Some(n) => n as u32,
        None => i as u32,
    }
}

/// How opaque an input is, unless it is set: fully.
pub open spec fn alpha_under(p: PropertyMap, i: int) -> u64 {
    match text::lookup(p, input_name(i, "_alpha"@)) {
        Some(PropertyTree::Float(bits)) => bits,
        _ => FLOAT_ONE,
    }
}

/// Where an input stands from the left, unless it is set: the first at the
/// edge, the others in the middle of a full canvas.
pub open spec fn xpos_under(p: PropertyMap, i: int) -> i64 {
    properties::int_or(
        p,
        input_name(i, "_xpos"@),
        if i == 0 {
            0
        } else {
            960
        },
    )
}

/// How the pad of an input is set.
pub open spec fn pad_settings(p: PropertyMap, i: int) -> SettingsInfo {
    plan::no_settings().push(("xpos"@, written(xpos_under(p, i) as int))).push(
        ("ypos"@, written(properties::int_or(p, input_name(i, "_ypos"@), 0) as int)),
    ).push(("width"@, written(properties::int_or(p, input_name(i, "_width"@), SOURCE_SIZE) as int))).push(
        ("height"@, written(properties::int_or(p, input_name(i, "_height"@), SOURCE_SIZE) as int)),
    ).push(("alpha"@, SettingInfo::Float(alpha_under(p, i)))).push(
        ("zorder"@, written(zorder_under(p, i) as int)),
    ).push(
        (
            "sizing-policy"@,
            SettingInfo::Parsed(
                properties::text_or(
                    p,
                    input_name(i, "_sizing_policy"@),
                    "keep-aspect-ratio"@,
                ),
            ),
        ),
    )
}

fn make_pad_settings(props: &Properties, i: usize) -> (r: Settings)
    requires
        i < 16,
    ensures
        r@ == pad_settings(props@, i as int),
{
    let xpos_key = input_key(i, "_xpos");
    let ypos_key = input_key(i, "_ypos");
    let width_key = input_key(i, "_width");
    let height_key = input_key(i, "_height");
    let alpha_key = input_key(i, "_alpha");
    let zorder_key = input_key(i, "_zorder");
    let policy_key = input_key(i, "_sizing_policy");
    let default_xpos: i64 = if i == 0 {
        0
    } else {
        960
    };
    let xpos = props.int_or(xpos_key.as_str(), default_xpos);
    let ypos = props.int_or(ypos_key.as_str(), 0);
    let width = props.int_or(width_key.as_str(), SOURCE_SIZE);
    let height = props.int_or(height_key.as_str(), SOURCE_SIZE);
    let alpha: u64 = match props.get(alpha_key.as_str()) {
        Some(PropertyValue::Float(bits)) => *bits,
        _ => FLOAT_ONE,
    };
    let zorder: u32 = match props.unsigned_from(zorder_key.as_str(), 0) {
        Some(n) => n as u32,
        None => i as u32,
    };
    let mut s = Settings::none();
    s.set("xpos", SettingValue::Parsed(text::i64_text(xpos)));
    s.set("ypos", SettingValue::Parsed(text::i64_text(ypos)));
    s.set("width", SettingValue::Parsed(text::i64_text(width)));
    s.set("height", SettingValue::Parsed(text::i64_text(height)));
    s.set("alpha", SettingValue::Float(alpha));
    s.set("zorder", SettingValue::Parsed(text::u64_text(zorder as u64)));
    s.set(
        "sizing-policy",
        SettingValue::Parsed(props.text_or(policy_key.as_str(), "keep-aspect-ratio")),
    );
    s
}

/// The pad requested for an input.
pub open spec fn pad_request(p: PropertyMap, i: int) -> PadRequestInfo {
    PadRequestInfo {
        template: "sink_%u"@,
        settings: pad_settings(p, i),
        refusal: "Failed to request sink pad "@ + text::decimal(i as nat)
            + " on mixer (element introspection disabled to avoid segfault)"@,
    }
}

/// The element with pads for the first `n` inputs.
pub open spec fn with_pads(e: ElementPlan, p: PropertyMap, n: nat) -> ElementPlan
    decreases n,
{
    if n == 0 {
        e
    } else {
        with_pads(e, p, (n - 1) as nat).requesting(pad_request(p, n - 1))
    }
}

/// The element with a latency, where one is set.
pub open spec fn with_latency(
    e: ElementPlan,
    p: PropertyMap,
    name: Seq<char>,
    setting: Seq<char>,
) -> ElementPlan {
    match latency_under(p, name) {
        Some(ms) => e.with(setting, written(ms * 1_000_000)),
        None => e,
    }
}

/// What puts the inputs on the canvas.
pub open spec fn mixer(instance: Seq<char>, p: PropertyMap) -> ElementPlan {
    let bare = plan::plain_element(
        plan::member(instance, "mixer"@),
        "glvideomixerelement"@,
    ).with("force-live"@, SettingInfo::Bool(properties::bool_or(p, "force_live"@, true))).with(
        "background"@,
        SettingInfo::Parsed(background_under(p)),
    );
    let delayed = with_latency(
        with_latency(bare, p, "latency"@, "latency"@),
        p,
        "min_upstream_latency"@,
        "min-upstream-latency"@,
    );
    with_pads(delayed, p, inputs_under(p))
}

/// Whether the latencies can be written in nanoseconds.
pub fn latencies_fit(props: &Properties) -> (r: bool)
    ensures
        r == (latency_fits(props@, "latency"@) && latency_fits(props@, "min_upstream_latency"@)),
{
    let most: u64 = u64::MAX / 1_000_000;
    let fits = match read_latency(props, "latency") {
        Some(ms) => ms <= most,
        None => true,
    };
    let upstream_fits = match read_latency(props, "min_upstream_latency") {
        Some(ms) => ms <= most,
        None => true,
    };
    fits && upstream_fits
}

fn set_latency(e: &mut ElementSpec, props: &Properties, name: &str, setting: &str)
    requires
        latency_fits(props@, name@),
    ensures
        final(e)@ == with_latency(old(e)@, props@, name@, setting@),
{
    match read_latency(props, name) {
        Some(ms) => {
            let ns: u64 = ms * 1_000_000;
            e.set(setting, SettingValue::Parsed(text::u64_text(ns)));
        },
        None => {},
    }
}

fn make_mixer(instance_id: &str, props: &Properties) -> (r: ElementSpec)
    requires
        latency_fits(props@, "latency"@),
        latency_fits(props@, "min_upstream_latency"@),
    ensures
        r@ == mixer(instance_id@, props@),
{
    let id = plan::member_id(instance_id, "mixer");
    let mut e = ElementSpec::new(id.as_str(), "glvideomixerelement");
    e.set("force-live", SettingValue::Bool(props.bool_or("force_live", true)));
    e.set("background", SettingValue::Parsed(parse_background(props)));
    set_latency(&mut e, props, "latency", "latency");
    set_latency(&mut e, props, "min_upstream_latency", "min-upstream-latency");
    let ghost delayed = e@;
    let n = parse_num_inputs(props);
    let mut i: usize = 0;
    while i < n
        invariant
            i <= n,
            n <= 16,
            e@ == with_pads(delayed, props@, i as nat),
        decreases n - i,
    {
        let number = text::usize_text(i);
        let refusal = "Failed to request sink pad ".to_owned().concat(number.as_str()).concat(
            " on mixer (element introspection disabled to avoid segfault)",
        );
        e.request(
            PadRequest {
                template: "sink_%u".to_owned(),
                settings: make_pad_settings(props, i),
                refusal,
            },
        );
        i += 1;
    }
    e
}

/// The upload of an input into graphics memory.
pub open spec fn upload(instance: Seq<char>, i: int) -> ElementPlan {
    plan::plain_element(
        plan::member(instance, plan::numbered("glupload_"@, i)),
        "glupload"@,
    ).labelled(plan::numbered("glupload_"@, i))
}

/// The plan with the uploads of the first `n` inputs.
pub open spec fn with_uploads(base: PlanInfo, instance: Seq<char>, n: nat) -> PlanInfo
    decreases n,
{
    if n == 0 {
        base
    } else {
        with_uploads(base, instance, (n - 1) as nat).add(upload(instance, n - 1))
    }
}

/// The size of the canvas.
pub open spec fn canvas_caps(p: PropertyMap) -> Seq<char> {
    "video/x-raw,width="@ + text::decimal(
        size_under(p, "output_width"@, 1920, 7680) as nat,
    ) + ",height="@ + text::decimal(size_under(p, "output_height"@, 1080, 4320) as nat)
}

/// What the block is built of, before the inputs are connected.
pub open spec fn compositor_elements(instance: Seq<char>, p: PropertyMap) -> PlanInfo {
    with_uploads(
        plan::empty_plan().add(mixer(instance, p)),
        instance,
        inputs_under(p),
    ).add(plan::plain_element(plan::member(instance, "gldownload"@), "gldownload"@)).add(
        plan::plain_element(plan::member(instance, "capsfilter"@), "capsfilter"@).with(
            "caps"@,
            SettingInfo::CapsText(canvas_caps(p)),
        ),
    )
}

/// The plan with the first `n` inputs connected to the pads that the mixer gave
/// them.
pub open spec fn with_inputs(
    base: PlanInfo,
    instance: Seq<char>,
    pads: Seq<Seq<char>>,
    n: nat,
) -> PlanInfo
    decreases n,
{
    if n == 0 {
        base
    } else {
        with_inputs(base, instance, pads, (n - 1) as nat).link(
            plan::member(instance, plan::numbered("glupload_"@, n - 1)),
            "src"@,
            plan::member(instance, "mixer"@),
            pads[n - 1],
        )
    }
}

/// The plan with everything connected.
pub open spec fn connected(base: PlanInfo, instance: Seq<char>, pads: Seq<Seq<char>>) -> PlanInfo {
    let download = plan::member(instance, "gldownload"@);
    with_inputs(base, instance, pads, pads.len()).link(
        plan::member(instance, "mixer"@),
        "src"@,
        download,
        "sink"@,
    ).link(download, "src"@, plan::member(instance, "capsfilter"@), "sink"@)
}

impl GLCompositorBuilder {
    /// The pads that the block shows with the given properties.
    pub fn get_external_pads(&self, props: &Properties) -> (r: Option<ExternalPads>)
        ensures
            r matches Some(pads) && pads@ == compositor_pads(inputs_under(props@)),
    {
        Some(make_pads(parse_num_inputs(props)))
    }

    /// What the block is built of, before the inputs are connected.
    pub fn build(&self, instance_id: &str, props: &Properties) -> (r: BlockPlan)
        requires
            latency_fits(props@, "latency"@),
            latency_fits(props@, "min_upstream_latency"@),
        ensures
            r@ == compositor_elements(instance_id@, props@),
    {
        let n = parse_num_inputs(props);
        let mut parts = BlockPlan::new();
        parts.add(make_mixer(instance_id, props));
        let ghost base = parts@;
        let mut i: usize = 0;
        while i < n
            invariant
                i <= n,
                parts@ == with_uploads(base, instance_id@, i as nat),
            decreases n - i,
        {
            let name = plan::numbered_name("glupload_", i);
            let id = plan::member_id(instance_id, name.as_str());
            let mut e = ElementSpec::new(id.as_str(), "glupload");
            e.label(name.as_str());
            parts.add(e);
            i += 1;
        }
        let download = plan::member_id(instance_id, "gldownload");
        let filter = plan::member_id(instance_id, "capsfilter");
        let width = text::u64_text(parse_output_width(props) as u64);
        let height = text::u64_text(parse_output_height(props) as u64);
        let caps = "video/x-raw,width=".to_owned().concat(width.as_str()).concat(
            ",height=",
        ).concat(height.as_str());
        parts.add(ElementSpec::new(download.as_str(), "gldownload"));
        let mut e = ElementSpec::new(filter.as_str(), "capsfilter");
        e.set("caps", SettingValue::CapsText(caps));
        parts.add(e);
        parts
    }

    /// Connects everything, given the names of the pads that the mixer gave the
    /// inputs.
    pub fn connect(&self, parts: &mut BlockPlan, instance_id: &str, pad_names: &Vec<String>)
        ensures
            final(parts)@ == connected(old(parts)@, instance_id@, text::texts(pad_names@)),
    {
        let ghost base = parts@;
        let ghost pads = text::texts(pad_names@);
        let mixer_id = plan::member_id(instance_id, "mixer");
        let mut i: usize = 0;
        while i < pad_names.len()
            invariant
                i <= pad_names.len(),
                pads == text::texts(pad_names@),
                mixer_id@ == plan::member(instance_id@, "mixer"@),
                parts@ == with_inputs(base, instance_id@, pads, i as nat),
            decreases pad_names.len() - i,
        {
            let name = plan::numbered_name("glupload_", i);
            let id = plan::member_id(instance_id, name.as_str());
            assert(pads[i as int] == pad_names@[i as int]@);
            parts.link(id.as_str(), "src", mixer_id.as_str(), pad_names[i].as_str());
            i += 1;
        }
        let download = plan::member_id(instance_id, "gldownload");
        let filter = plan::member_id(instance_id, "capsfilter");
        parts.link(mixer_id.as_str(), "src", download.as_str(), "sink");
        parts.link(download.as_str(), "src", filter.as_str(), "sink");
    }
}

// ---------------------------------------------------------------------------
// Laws
// ---------------------------------------------------------------------------

proof fn lemma_uploads(base: PlanInfo, instance: Seq<char>, n: nat)
    requires
        base.links_hold(),
    ensures
        base.within(with_uploads(base, instance, n)),
        with_uploads(base, instance, n).links_hold(),
        forall|i: int|
            0 <= i < n ==> with_uploads(base, instance, n).has_element(
                #[trigger] plan::member(instance, plan::numbered("glupload_"@, i)),
            ),
    decreases n,
{
    broadcast use plan::adding_keeps;

    if n > 0 {
        lemma_uploads(base, instance, (n - 1) as nat);
    }
}

proof fn lemma_inputs(base: PlanInfo, instance: Seq<char>, pads: Seq<Seq<char>>, n: nat)
    requires
        base.links_hold(),
        base.has_element(plan::member(instance, "mixer"@)),
        forall|i: int|
            0 <= i < n ==> base.has_element(
                #[trigger] plan::member(instance, plan::numbered("glupload_"@, i)),
            ),
    ensures
        base.within(with_inputs(base, instance, pads, n)),
        with_inputs(base, instance, pads, n).links_hold(),
    decreases n,
{
    broadcast use plan::linking_keeps;

    if n > 0 {
        lemma_inputs(base, instance, pads, (n - 1) as nat);
        let id = plan::member(instance, plan::numbered("glupload_"@, n - 1));
        assert(base.has_element(id));
    }
}

proof fn lemma_mixer_id(e: ElementPlan, p: PropertyMap, n: nat)
    ensures
        with_pads(e, p, n).id == e.id,
    decreases n,
{
    if n > 0 {
        lemma_mixer_id(e, p, (n - 1) as nat);
    }
}

/// With a pad for every input, every connection inside the block is between
/// elements of the block, and every pad that the block shows is a pad of one of
/// them.
pub proof fn compositor_is_connected(instance: Seq<char>, p: PropertyMap, pads: Seq<Seq<char>>)
    requires
        pads.len() == inputs_under(p),
    ensures
        connected(compositor_elements(instance, p), instance, pads).links_hold(),
        forall|i: int|
            0 <= i < inputs_under(p) ==> connected(
                compositor_elements(instance, p),
                instance,
                pads,
            ).has_element(#[trigger] plan::member(instance, plan::numbered("glupload_"@, i))),
        connected(compositor_elements(instance, p), instance, pads).has_element(
            plan::member(instance, "capsfilter"@),
        ),
{
    broadcast use {plan::adding_keeps, plan::linking_keeps};

    let bare = plan::plain_element(plan::member(instance, "mixer"@), "glvideomixerelement"@);
    let s0 = plan::empty_plan();
    assert(s0.links_hold());
    let s1 = s0.add(mixer(instance, p));
    let delayed = with_latency(
        with_latency(
            bare.with(
                "force-live"@,
                SettingInfo::Bool(properties::bool_or(p, "force_live"@, true)),
            ).with("background"@, SettingInfo::Parsed(background_under(p))),
            p,
            "latency"@,
            "latency"@,
        ),
        p,
        "min_upstream_latency"@,
        "min-upstream-latency"@,
    );
    lemma_mixer_id(delayed, p, inputs_under(p));
    assert(s1.has_element(plan::member(instance, "mixer"@)));
    lemma_uploads(s1, instance, inputs_under(p));
    let s2 = compositor_elements(instance, p);
    assert(s2.has_element(plan::member(instance, "mixer"@)));
    assert(s2.has_element(plan::member(instance, "gldownload"@)));
    assert(s2.has_element(plan::member(instance, "capsfilter"@)));
    lemma_inputs(s2, instance, pads, pads.len());
    let s3 = with_inputs(s2, instance, pads, pads.len());
    assert(s3.has_element(plan::member(instance, "mixer"@)));
    assert(s3.has_element(plan::member(instance, "gldownload"@)));
    assert(s3.has_element(plan::member(instance, "capsfilter"@)));
}

/// The uploads of the first `n` inputs.
pub open spec fn upload_tags(n: nat) -> Seq<plan::Tag> {
    Seq::new(n, |i: int| ("glupload_"@, Some(i as nat)))
}

proof fn lemma_uploads_are_tagged(base: PlanInfo, instance: Seq<char>, tags: Seq<plan::Tag>, n: nat)
    requires
        plan::tagged(base, instance, tags),
    ensures
        plan::tagged(with_uploads(base, instance, n), instance, tags + upload_tags(n)),
    decreases n,
{
    if n > 0 {
        lemma_uploads_are_tagged(base, instance, tags, (n - 1) as nat);
        let all = with_uploads(base, instance, n);
        let shorter = tags + upload_tags((n - 1) as nat);
        let longer = tags + upload_tags(n);
        assert forall|i: int| 0 <= i < longer.len() implies (#[trigger] all.elements[i]).id
            == plan::member(instance, plan::spelled(longer[i])) by {
            if i < shorter.len() {
                assert(longer[i] == shorter[i]);
            }
        }
    } else {
        assert(tags + upload_tags(0) =~= tags);
    }
}

/// No two elements of the block have the same id.
pub proof fn compositor_ids_differ(instance: Seq<char>, p: PropertyMap)
    ensures
        compositor_elements(instance, p).ids_differ(),
{
    reveal_strlit("mixer");
    reveal_strlit("glupload_");
    reveal_strlit("gldownload");
    reveal_strlit("capsfilter");
    assert("gldownload"@[0] == 'g' && "capsfilter"@[0] == 'c');
    assert(plan::is_stem("mixer"@) && plan::is_stem("glupload_"@));
    assert(plan::is_stem("gldownload"@) && plan::is_stem("capsfilter"@));
    let n = inputs_under(p);
    let base = plan::empty_plan().add(mixer(instance, p));
    let first: Seq<plan::Tag> = seq![("mixer"@, None)];
    lemma_mixer_name(instance, p);
    assert(plan::tagged(base, instance, first));
    lemma_uploads_are_tagged(base, instance, first, n);
    let tags = (first + upload_tags(n)).push(("gldownload"@, None)).push(("capsfilter"@, None));
    plan::lemma_tags_keep_ids_apart(compositor_elements(instance, p), instance, tags);
}

proof fn lemma_mixer_name(instance: Seq<char>, p: PropertyMap)
    ensures
        mixer(instance, p).id == plan::member(instance, "mixer"@),
{
    let bare = plan::plain_element(
        plan::member(instance, "mixer"@),
        "glvideomixerelement"@,
    ).with("force-live"@, SettingInfo::Bool(properties::bool_or(p, "force_live"@, true))).with(
        "background"@,
        SettingInfo::Parsed(background_under(p)),
    );
    let delayed = with_latency(
        with_latency(bare, p, "latency"@, "latency"@),
        p,
        "min_upstream_latency"@,
        "min-upstream-latency"@,
    );
    lemma_mixer_id(delayed, p, inputs_under(p));
}

// ---------------------------------------------------------------------------
// Definition
// ---------------------------------------------------------------------------

/// What can lie behind the inputs.
pub open spec fn background_choices() -> Seq<Choice> {
    definition::no_choice()
        .push(("black"@, Some("Black"@)))
        .push(("white"@, Some("White"@)))
        .push(("checker"@, Some("Checker Pattern"@)))
        .push(("transparent"@, Some("Transparent"@)))
}

fn background_choices_values() -> (r: Vec<EnumValue>)
    ensures
        definition::choices(r@) == background_choices(),
{
    let mut all = definition::no_values();
    definition::add_value(&mut all, "black", "Black");
    definition::add_value(&mut all, "white", "White");
    definition::add_value(&mut all, "checker", "Checker Pattern");
    definition::add_value(&mut all, "transparent", "Transparent");
    all
}

/// How an input can be fitted.
pub open spec fn sizing_choices() -> Seq<Choice> {
    definition::no_choice()
        .push(("none"@, Some("None (Stretch to Fill)"@)))
        .push(("keep-aspect-ratio"@, Some("Keep Aspect Ratio"@)))
}

fn sizing_choices_values() -> (r: Vec<EnumValue>)
    ensures
        definition::choices(r@) == sizing_choices(),
{
    let mut all = definition::no_values();
    definition::add_value(&mut all, "none", "None (Stretch to Fill)");
    definition::add_value(&mut all, "keep-aspect-ratio", "Keep Aspect Ratio");
    all
}

/// A property of an input: what comes after its number in the name, the label
/// and the description.
pub open spec fn input_info(
    i: int,
    name_tail: Seq<char>,
    label_tail: Seq<char>,
    before: Seq<char>,
    after: Seq<char>,
    property_type: TypeInfo,
    default_value: PropertyTree,
) -> PropertyInfo {
    let number = text::decimal(i as nat);
    definition::block_property(
        input_name(i, name_tail),
        "Input "@ + number + label_tail,
        before + number + after,
        property_type,
        default_value,
    )
}

fn input_property(
    i: usize,
    name_tail: &str,
    label_tail: &str,
    before: &str,
    after: &str,
    property_type: PropertyType,
    default_value: PropertyValue,
) -> (r: ExposedProperty)
    ensures
        r@ == input_info(
            i as int,
            name_tail@,
            label_tail@,
            before@,
            after@,
            property_type@,
            default_value@,
        ),
{
    let number = text::usize_text(i);
    let name = input_key(i, name_tail);
    let label = "Input ".to_owned().concat(number.as_str()).concat(label_tail);
    let description = before.to_owned().concat(number.as_str()).concat(after);
    definition::for_block(
        name.as_str(),
        label.as_str(),
        description.as_str(),
        property_type,
        default_value,
    )
}

/// The definition with the properties of an input.
pub open spec fn with_input_properties(d: DefinitionInfo, i: int, xpos: i64) -> DefinitionInfo {
    d.property(
        input_info(
            i,
            "_xpos"@,
            " X Position"@,
            "X position of input "@,
            " on the canvas"@,
            TypeInfo::Int,
            PropertyTree::Int(xpos),
        ),
    ).property(
        input_info(
            i,
            "_ypos"@,
            " Y Position"@,
            "Y position of input "@,
            " on the canvas"@,
            TypeInfo::Int,
            PropertyTree::Int(0),
        ),
    ).property(
        input_info(
            i,
            "_width"@,
            " Width"@,
            "Width of input "@,
            " (-1 = source width)"@,
            TypeInfo::Int,
            PropertyTree::Int(SOURCE_SIZE),
        ),
    ).property(
        input_info(
            i,
            "_height"@,
            " Height"@,
            "Height of input "@,
            " (-1 = source height)"@,
            TypeInfo::Int,
            PropertyTree::Int(SOURCE_SIZE),
        ),
    ).property(
        input_info(
            i,
            "_alpha"@,
            " Alpha"@,
            "Alpha/transparency of input "@,
            " (0.0-1.0)"@,
            TypeInfo::Float,
            PropertyTree::Float(FLOAT_ONE),
        ),
    ).property(
        input_info(
            i,
            "_zorder"@,
            " Z-Order"@,
            "Z-order of input "@,
            " (higher = on top)"@,
            TypeInfo::UInt,
            PropertyTree::UInt(i as u64),
        ),
    ).property(
        input_info(
            i,
            "_sizing_policy"@,
            " Sizing Policy"@,
            "How to scale input "@,
            ": 'none' (stretch to fill) or 'keep-aspect-ratio' (preserve aspect with padding)"@,
            TypeInfo::OneOf(sizing_choices()),
            PropertyTree::Text("keep-aspect-ratio"@),
        ),
    )
}

fn add_input_properties(d: &mut BlockDefinition, i: usize, xpos: i64)
    ensures
        final(d)@ == with_input_properties(old(d)@, i as int, xpos),
{
    d.property(
        input_property(
            i,
            "_xpos",
            " X Position",
            "X position of input ",
            " on the canvas",
            PropertyType::Int,
            PropertyValue::Int(xpos),
        ),
    );
    d.property(
        input_property(
            i,
            "_ypos",
            " Y Position",
            "Y position of input ",
            " on the canvas",
            PropertyType::Int,
            PropertyValue::Int(0),
        ),
    );
    d.property(
        input_property(
            i,
            "_width",
            " Width",
            "Width of input ",
            " (-1 = source width)",
            PropertyType::Int,
            PropertyValue::Int(SOURCE_SIZE),
        ),
    );
    d.property(
        input_property(
            i,
            "_height",
            " Height",
            "Height of input ",
            " (-1 = source height)",
            PropertyType::Int,
            PropertyValue::Int(SOURCE_SIZE),
        ),
    );
    d.property(
        input_property(
            i,
            "_alpha",
            " Alpha",
            "Alpha/transparency of input ",
            " (0.0-1.0)",
            PropertyType::Float,
            PropertyValue::Float(FLOAT_ONE),
        ),
    );
    d.property(
        input_property(
            i,
            "_zorder",
            " Z-Order",
            "Z-order of input ",
            " (higher = on top)",
            PropertyType::UInt,
            PropertyValue::UInt(i as u64),
        ),
    );
    d.property(
        input_property(
            i,
            "_sizing_policy",
            " Sizing Policy",
            "How to scale input ",
            ": 'none' (stretch to fill) or 'keep-aspect-ratio' (preserve aspect with padding)",
            PropertyType::Enum { values: sizing_choices_values() },
            PropertyValue::String("keep-aspect-ratio".to_owned()),
        ),
    );
}

/// How the block looks.
pub open spec fn compositor_looks() -> LooksInfo {
    LooksInfo {
        color: Some("#9C27B0"@),
        ..definition::plain_looks(Some("🎬"@), 20, 25)
    }
}

/// How the block presents itself. The inputs that it starts with are two, side
/// by side.
pub open spec fn compositor_definition() -> DefinitionInfo {
    let head = definition::built_in_block(
        BLOCK_ID@,
        "OpenGL Video Compositor"@,
        "Hardware-accelerated OpenGL video compositor for combining multiple video inputs with positioning, scaling, and alpha blending. Each input can be independently positioned and sized on the output canvas."@,
        "Video"@,
        compositor_pads(2),
        compositor_looks(),
    ).property(
        definition::block_property(
            "num_inputs"@,
            "Number of Inputs"@,
            "Number of video inputs to composite (1-16)"@,
            TypeInfo::UInt,
            PropertyTree::UInt(2),
        ),
    ).property(
        definition::block_property(
            "output_width"@,
            "Output Width"@,
            "Width of the output canvas in pixels (1-7680)"@,
            TypeInfo::UInt,
            PropertyTree::UInt(1920),
        ),
    ).property(
        definition::block_property(
            "output_height"@,
            "Output Height"@,
            "Height of the output canvas in pixels (1-4320)"@,
            TypeInfo::UInt,
            PropertyTree::UInt(1080),
        ),
    ).property(
        definition::block_property(
            "background"@,
            "Background"@,
            "Background type for the canvas"@,
            TypeInfo::OneOf(background_choices()),
            PropertyTree::Text("black"@),
        ),
    ).property(
        definition::block_property(
            "latency"@,
            "Latency (ms)"@,
            "Additional latency in milliseconds for the mixer aggregator"@,
            TypeInfo::UInt,
            PropertyTree::UInt(0),
        ),
    ).property(
        definition::block_property(
            "min_upstream_latency"@,
            "Min Upstream Latency (ms)"@,
            "Minimum upstream latency in milliseconds that is reported to upstream elements"@,
            TypeInfo::UInt,
            PropertyTree::UInt(0),
        ),
    ).property(
        definition::block_property(
            "force_live"@,
            "Force Live Mode"@,
            "Always operate in live mode and aggregate on timeout regardless of whether any live sources are linked upstream. Construction-time only - cannot be changed after block creation."@,
            TypeInfo::Bool,
            PropertyTree::Bool(true),
        ),
    );
    with_input_properties(with_input_properties(head, 0, 0), 1, 960)
}

/// How the block presents itself.
pub fn glcompositor_definition() -> (r: BlockDefinition)
    ensures
        r@ == compositor_definition(),
{
    let mut ui = definition::plain_ui(Some("🎬"), 20, 25);
    ui.color = Some("#9C27B0".to_owned());
    let mut d = BlockDefinition::built_in(
        BLOCK_ID,
        "OpenGL Video Compositor",
        "Hardware-accelerated OpenGL video compositor for combining multiple video inputs with positioning, scaling, and alpha blending. Each input can be independently positioned and sized on the output canvas.",
        "Video",
        make_pads(2),
        ui,
    );
    d.property(
        definition::for_block(
            "num_inputs",
            "Number of Inputs",
            "Number of video inputs to composite (1-16)",
            PropertyType::UInt,
            PropertyValue::UInt(2),
        ),
    );
    d.property(
        definition::for_block(
            "output_width",
            "Output Width",
            "Width of the output canvas in pixels (1-7680)",
            PropertyType::UInt,
            PropertyValue::UInt(1920),
        ),
    );
    d.property(
        definition::for_block(
            "output_height",
            "Output Height",
            "Height of the output canvas in pixels (1-4320)",
            PropertyType::UInt,
            PropertyValue::UInt(1080),
        ),
    );
    d.property(
        definition::for_block(
            "background",
            "Background",
            "Background type for the canvas",
            PropertyType::Enum { values: background_choices_values() },
            PropertyValue::String("black".to_owned()),
        ),
    );
    d.property(
        definition::for_block(
            "latency",
            "Latency (ms)",
            "Additional latency in milliseconds for the mixer aggregator",
            PropertyType::UInt,
            PropertyValue::UInt(0),
        ),
    );
    d.property(
        definition::for_block(
            "min_upstream_latency",
            "Min Upstream Latency (ms)",
            "Minimum upstream latency in milliseconds that is reported to upstream elements",
            PropertyType::UInt,
            PropertyValue::UInt(0),
        ),
    );
    d.property(
        definition::for_block(
            "force_live",
            "Force Live Mode",
            "Always operate in live mode and aggregate on timeout regardless of whether any live sources are linked upstream. Construction-time only - cannot be changed after block creation.",
            PropertyType::Bool,
            PropertyValue::Bool(true),
        ),
    );
    add_input_properties(&mut d, 0, 0);
    add_input_properties(&mut d, 1, 960);
    d
}

/// Every pad that the block shows is a pad of an element that it is built of:
/// an input of its upload, the canvas of the filter at the end.
pub proof fn shown_pads_are_of_elements(instance: Seq<char>, p: PropertyMap)
    ensures
        forall|i: int|
            0 <= i < compositor_pads(inputs_under(p)).inputs.len() ==> compositor_elements(
                instance,
                p,
            ).has_element(
                plan::member(
                    instance,
                    (#[trigger] compositor_pads(inputs_under(p)).inputs[i]).internal_element_id,
                ),
            ),
        forall|i: int|
            0 <= i < compositor_pads(inputs_under(p)).outputs.len() ==> compositor_elements(
                instance,
                p,
            ).has_element(
                plan::member(
                    instance,
                    (#[trigger] compositor_pads(inputs_under(p)).outputs[i]).internal_element_id,
                ),
            ),
{
    broadcast use plan::adding_keeps;

    let n = inputs_under(p);
    let base = plan::empty_plan().add(mixer(instance, p));
    assert(base.links_hold());
    lemma_uploads(base, instance, n);
    let all = compositor_elements(instance, p);
    assert(with_uploads(base, instance, n).within(all));
    assert forall|i: int| 0 <= i < compositor_pads(n).inputs.len() implies all.has_element(
        plan::member(instance, (#[trigger] compositor_pads(n).inputs[i]).internal_element_id),
    ) by {
        assert(compositor_pads(n).inputs[i] == input_pad(i));
        assert(all.has_element(plan::member(instance, plan::numbered("glupload_"@, i))));
    }
    assert(all.has_element(plan::member(instance, "capsfilter"@)));
}

/// The pads in the definition are those of a block whose number of inputs is
/// not set, and every one of them is a pad of an element of that block.
pub proof fn defined_pads_are_of_elements(instance: Seq<char>, p: PropertyMap)
    requires
        text::lookup(p, "num_inputs"@) is None,
    ensures
        compositor_definition().external_pads == compositor_pads(inputs_under(p)),
        forall|i: int|
            0 <= i < compositor_definition().external_pads.inputs.len() ==> compositor_elements(
                instance,
                p,
            ).has_element(
                plan::member(
                    instance,
                    (#[trigger] compositor_definition().external_pads.inputs[i]).internal_element_id,
                ),
            ),
        forall|i: int|
            0 <= i < compositor_definition().external_pads.outputs.len() ==> compositor_elements(
                instance,
                p,
            ).has_element(
                plan::member(
                    instance,
                    (#[trigger] compositor_definition().external_pads.outputs[i]).internal_element_id,
                ),
            ),
{
    shown_pads_are_of_elements(instance, p);
    assert(inputs_under(p) == 2);
    assert(compositor_definition().external_pads == compositor_pads(2));
}

/// The blocks of this kind.
pub fn get_blocks() -> (r: Vec<BlockDefinition>)
    ensures
        definition::definition_infos(r@) == seq![compositor_definition()],
{
    definition::only(glcompositor_definition())
}

} // verus!
