//! The live audio router: audio channels of several streams, routed by a
//! matrix that can change while the block runs.
//!
//! ```text
//! audio_in_N → identity_in_N → deinterleave_in_N → interleave_in → capssetter_in → matrix
//! matrix → capssetter_matrix → deinterleave_out → interleave_M → capssetter_M → queue_out_M
//! ```
//!
//! The pads between a `deinterleave` and an `interleave` appear once the
//! number of channels is known. Each is then joined through a queue.

use crate::blocks::definition;
use crate::blocks::definition::{
    BlockDefinition, DefinitionInfo, ExposedProperty, ExternalPads, MediaType, PadInfo, PadsInfo,
    PropertyInfo, PropertyType, TypeInfo,
};
use crate::blocks::plan;
use crate::blocks::plan::{
    BlockPlan, CapsField, CapsFieldInfo, CapsSpec, ElementPlan, ElementSpec, PadRequest, PadRequestInfo, PlanInfo, SettingInfo,
    SettingValue, Settings,
};
use crate::blocks::routing;
use crate::blocks::routing::{ChannelLayout, LayoutInfo, MATRIX_ELEMENT_ID_TAIL};
use crate::properties::{Properties, PropertyTree, PropertyValue};
use crate::text;
use vstd::prelude::*;

verus! {

pub const BLOCK_ID: &'static str = "builtin.liveaudiorouter";

pub struct LiveAudioRouterBuilder;

// ---------------------------------------------------------------------------
// Pads
// ---------------------------------------------------------------------------

/// The pad of an input stream.
pub open spec fn input_pad(i: int) -> PadInfo {
    definition::pad_info(
        Some(plan::numbered("A"@, i)),
        plan::numbered("audio_in_"@, i),
        MediaType::Audio,
        plan::numbered("identity_in_"@, i),
        "sink"@,
    )
}

/// The pad of an output stream.
pub open spec fn output_pad(i: int) -> PadInfo {
    definition::pad_info(
        Some(plan::numbered("A"@, i)),
        plan::numbered("audio_out_"@, i),
        MediaType::Audio,
        plan::numbered("queue_out_"@, i),
        "src"@,
    )
}

/// The pads of so many streams on either side.
pub open spec fn stream_pads(inputs: nat, outputs: nat) -> PadsInfo {
    PadsInfo {
        inputs: Seq::new(inputs, |i: int| input_pad(i)),
        outputs: Seq::new(outputs, |i: int| output_pad(i)),
    }
}

fn pads_for_streams(num_inputs: usize, num_outputs: usize) -> (r: ExternalPads)
    ensures
        r@ == stream_pads(num_inputs as nat, num_outputs as nat),
{
    let mut pads = ExternalPads::none();
    let mut i: usize = 0;
    while i < num_inputs
        invariant
            i <= num_inputs,
            pads@.inputs =~= Seq::new(i as nat, |k: int| input_pad(k)),
            pads@.outputs =~= Seq::<PadInfo>::empty(),
        decreases num_inputs - i,
    {
        let label = plan::numbered_name("A", i);
        let name = plan::numbered_name("audio_in_", i);
        let element = plan::numbered_name("identity_in_", i);
        pads.input(
            definition::external_pad(
                Some(label.as_str()),
                name.as_str(),
                MediaType::Audio,
                element.as_str(),
                "sink",
            ),
        );
        i += 1;
    }
    let ghost inputs = pads@.inputs;
    let mut j: usize = 0;
    while j < num_outputs
        invariant
            j <= num_outputs,
            pads@.inputs == inputs,
            pads@.outputs =~= Seq::new(j as nat, |k: int| output_pad(k)),
        decreases num_outputs - j,
    {
        let label = plan::numbered_name("A", j);
        let name = plan::numbered_name("audio_out_", j);
        let element = plan::numbered_name("queue_out_", j);
        pads.output(
            definition::external_pad(
                Some(label.as_str()),
                name.as_str(),
                MediaType::Audio,
                element.as_str(),
                "src",
            ),
        );
        j += 1;
    }
    pads
}

// ---------------------------------------------------------------------------
// Elements
// ---------------------------------------------------------------------------

/// Gathers channels into one stream.
pub open spec fn interleave(id: Seq<char>) -> ElementPlan {
    plan::plain_element(id, "interleave"@).with(
        "channel-positions-from-input"@,
        SettingInfo::Bool(false),
    )
}

fn make_interleave(id: &str) -> (r: ElementSpec)
    ensures
        r@ == interleave(id@),
{
    let mut e = ElementSpec::new(id, "interleave");
    e.set("channel-positions-from-input", SettingValue::Bool(false));
    e
}

/// Takes a stream apart into channels.
pub open spec fn deinterleave(id: Seq<char>) -> ElementPlan {
    plan::plain_element(id, "deinterleave"@).with("keep-positions"@, SettingInfo::Bool(false))
}

fn make_deinterleave(id: &str) -> (r: ElementSpec)
    ensures
        r@ == deinterleave(id@),
{
    let mut e = ElementSpec::new(id, "deinterleave");
    e.set("keep-positions", SettingValue::Bool(false));
    e
}

/// Where channels are heard: one in the middle, two left and right, more
/// nowhere in particular.
pub open spec fn channel_mask(channels: int) -> u64 {
    if channels == 1 {
        1
    } else if channels == 2 {
        3
    } else {
        0
    }
}

/// Says where the channels of a stream are heard.
pub open spec fn capssetter(id: Seq<char>, channels: int) -> ElementPlan {
    plan::plain_element(id, "capssetter"@).with(
        "caps"@,
        SettingInfo::Caps(
            plan::any_of("audio/x-raw"@).field(
                "channel-mask"@,
                CapsFieldInfo::Bitmask(channel_mask(channels)),
            ),
        ),
    ).with("join"@, SettingInfo::Bool(true))
}

fn make_capssetter(id: &str, channels: usize) -> (r: ElementSpec)
    ensures
        r@ == capssetter(id@, channels as int),
{
    let mask: u64 = if channels == 1 {
        1
    } else if channels == 2 {
        3
    } else {
        0
    };
    let mut caps = CapsSpec::new("audio/x-raw");
    caps.field("channel-mask", CapsField::Bitmask(mask));
    let mut e = ElementSpec::new(id, "capssetter");
    e.set("caps", SettingValue::Caps(caps));
    e.set("join", SettingValue::Bool(true));
    e
}

/// A sink pad requested on an element that gathers channels.
pub open spec fn sink_request(refusal: Seq<char>) -> PadRequestInfo {
    PadRequestInfo { template: "sink_%u"@, settings: Seq::empty(), refusal }
}

fn request_sink(refusal: String) -> (r: PadRequest)
    ensures
        r@ == sink_request(refusal@),
{
    PadRequest { template: "sink_%u".to_owned(), settings: Settings::none(), refusal }
}

/// The element with a sink pad for each input channel.
pub open spec fn with_input_sinks(e: ElementPlan, n: nat) -> ElementPlan
    decreases n,
{
    if n == 0 {
        e
    } else {
        with_input_sinks(e, (n - 1) as nat).requesting(
            sink_request("Failed to request sink pad on interleave_in"@),
        )
    }
}

/// The element with a sink pad for each channel of an output stream.
pub open spec fn with_output_sinks(e: ElementPlan, stream: int, n: nat) -> ElementPlan
    decreases n,
{
    if n == 0 {
        e
    } else {
        with_output_sinks(e, stream, (n - 1) as nat).requesting(
            sink_request(
                "Failed to request sink pad "@ + text::decimal((n - 1) as nat)
                    + " on interleave_"@ + text::decimal(stream as nat),
            ),
        )
    }
}

/// Gathers all input channels.
pub open spec fn input_gatherer(instance: Seq<char>, channels: int) -> ElementPlan {
    with_input_sinks(interleave(plan::member(instance, "interleave_in"@)), channels as nat)
}

/// Gathers the channels of an output stream.
pub open spec fn output_gatherer(instance: Seq<char>, stream: int, channels: int) -> ElementPlan {
    with_output_sinks(
        interleave(plan::member(instance, plan::numbered("interleave_"@, stream))),
        stream,
        channels as nat,
    )
}

/// Mixes the input channels into the output channels.
pub open spec fn mixer(
    instance: Seq<char>,
    inputs: int,
    outputs: int,
    matrix: Seq<Seq<bool>>,
) -> ElementPlan {
    plan::plain_element(instance + MATRIX_ELEMENT_ID_TAIL@, "audiomixmatrix"@).with(
        "in-channels"@,
        SettingInfo::U32(inputs as u32),
    ).with("out-channels"@, SettingInfo::U32(outputs as u32)).with(
        "matrix"@,
        SettingInfo::Matrix(matrix),
    )
}

/// The plan with the parts of an output stream.
pub open spec fn with_output_stream(
    base: PlanInfo,
    instance: Seq<char>,
    i: int,
    channels: int,
) -> PlanInfo {
    let gatherer = plan::member(instance, plan::numbered("interleave_"@, i));
    let setter = plan::member(instance, plan::numbered("capssetter_"@, i));
    let queue = plan::member(instance, plan::numbered("queue_out_"@, i));
    base.add(output_gatherer(instance, i, channels)).add(capssetter(setter, channels)).add(
        plan::plain_element(queue, "queue"@).labelled("queue_out"@),
    ).link(gatherer, "src"@, setter, "sink"@).link(setter, "src"@, queue, "sink"@)
}

/// The plan with the parts of the first `n` output streams.
pub open spec fn with_output_streams(
    base: PlanInfo,
    instance: Seq<char>,
    outputs: Seq<usize>,
    n: nat,
) -> PlanInfo
    decreases n,
{
    if n == 0 {
        base
    } else {
        with_output_stream(
            with_output_streams(base, instance, outputs, (n - 1) as nat),
            instance,
            n - 1,
            outputs[n - 1] as int,
        )
    }
}

/// The plan with the parts of an input stream.
pub open spec fn with_input_stream(base: PlanInfo, instance: Seq<char>, i: int) -> PlanInfo {
    let entry = plan::member(instance, plan::numbered("identity_in_"@, i));
    let splitter = plan::member(instance, plan::numbered("deinterleave_in_"@, i));
    base.add(
        plan::plain_element(entry, "identity"@).with("silent"@, SettingInfo::Bool(true)),
    ).add(deinterleave(splitter)).link(entry, "src"@, splitter, "sink"@)
}

/// The plan with the parts of the first `n` input streams.
pub open spec fn with_input_streams(base: PlanInfo, instance: Seq<char>, n: nat) -> PlanInfo
    decreases n,
{
    if n == 0 {
        base
    } else {
        with_input_stream(
            with_input_streams(base, instance, (n - 1) as nat),
            instance,
            n - 1,
        )
    }
}

/// The parts that all streams share.
pub open spec fn router_core(
    instance: Seq<char>,
    inputs: int,
    outputs: int,
    matrix: Seq<Seq<bool>>,
) -> PlanInfo {
    let gatherer = plan::member(instance, "interleave_in"@);
    let setter = plan::member(instance, "capssetter_in"@);
    let mix = instance + MATRIX_ELEMENT_ID_TAIL@;
    let mixed = plan::member(instance, "capssetter_matrix"@);
    let splitter = plan::member(instance, "deinterleave_out"@);
    plan::empty_plan().add(input_gatherer(instance, inputs)).add(capssetter(setter, inputs)).add(
        mixer(instance, inputs, outputs, matrix),
    ).add(capssetter(mixed, outputs)).link(gatherer, "src"@, setter, "sink"@).link(
        setter,
        "src"@,
        mix,
        "sink"@,
    ).link(mix, "src"@, mixed, "sink"@).link(mixed, "src"@, splitter, "sink"@)
}

/// What the block is built of.
pub open spec fn router_plan(
    instance: Seq<char>,
    layout: LayoutInfo,
    matrix: Seq<Seq<bool>>,
) -> PlanInfo {
    with_input_streams(
        with_output_streams(
            router_core(instance, routing::total(layout.inputs), routing::total(layout.outputs), matrix),
            instance,
            layout.outputs,
            layout.outputs.len(),
        ).add(deinterleave(plan::member(instance, "deinterleave_out"@))),
        instance,
        layout.inputs.len(),
    )
}

fn gather_inputs(instance_id: &str, channels: usize) -> (r: ElementSpec)
    ensures
        r@ == input_gatherer(instance_id@, channels as int),
{
    let id = plan::member_id(instance_id, "interleave_in");
    let mut e = make_interleave(id.as_str());
    let mut i: usize = 0;
    while i < channels
        invariant
            i <= channels,
            e@ == with_input_sinks(interleave(id@), i as nat),
        decreases channels - i,
    {
        e.request(request_sink("Failed to request sink pad on interleave_in".to_owned()));
        i += 1;
    }
    e
}

fn gather_output(instance_id: &str, stream: usize, channels: usize) -> (r: ElementSpec)
    ensures
        r@ == output_gatherer(instance_id@, stream as int, channels as int),
{
    let name = plan::numbered_name("interleave_", stream);
    let id = plan::member_id(instance_id, name.as_str());
    let mut e = make_interleave(id.as_str());
    let mut i: usize = 0;
    while i < channels
        invariant
            i <= channels,
            e@ == with_output_sinks(interleave(id@), stream as int, i as nat),
        decreases channels - i,
    {
        let channel_text = text::usize_text(i);
        let stream_text = text::usize_text(stream);
        let refusal = "Failed to request sink pad ".to_owned().concat(
            channel_text.as_str(),
        ).concat(" on interleave_").concat(stream_text.as_str());
        e.request(request_sink(refusal));
        i += 1;
    }
    e
}

fn add_output_stream(parts: &mut BlockPlan, instance_id: &str, i: usize, channels: usize)
    ensures
        final(parts)@ == with_output_stream(
            old(parts)@,
            instance_id@,
            i as int,
            channels as int,
        ),
{
    let gatherer_name = plan::numbered_name("interleave_", i);
    let setter_name = plan::numbered_name("capssetter_", i);
    let queue_name = plan::numbered_name("queue_out_", i);
    let gatherer = plan::member_id(instance_id, gatherer_name.as_str());
    let setter = plan::member_id(instance_id, setter_name.as_str());
    let queue_id = plan::member_id(instance_id, queue_name.as_str());
    parts.add(gather_output(instance_id, i, channels));
    parts.add(make_capssetter(setter.as_str(), channels));
    let mut queue = ElementSpec::new(queue_id.as_str(), "queue");
    queue.label("queue_out");
    parts.add(queue);
    parts.link(gatherer.as_str(), "src", setter.as_str(), "sink");
    parts.link(setter.as_str(), "src", queue_id.as_str(), "sink");
}

fn add_input_stream(parts: &mut BlockPlan, instance_id: &str, i: usize)
    ensures
        final(parts)@ == with_input_stream(old(parts)@, instance_id@, i as int),
{
    let entry_name = plan::numbered_name("identity_in_", i);
    let splitter_name = plan::numbered_name("deinterleave_in_", i);
    let entry_id = plan::member_id(instance_id, entry_name.as_str());
    let splitter_id = plan::member_id(instance_id, splitter_name.as_str());
    let mut entry = ElementSpec::new(entry_id.as_str(), "identity");
    entry.set("silent", SettingValue::Bool(true));
    parts.add(entry);
    parts.add(make_deinterleave(splitter_id.as_str()));
    parts.link(entry_id.as_str(), "src", splitter_id.as_str(), "sink");
}

fn shared_parts(instance_id: &str, inputs: usize, outputs: usize, matrix: Vec<Vec<bool>>) -> (r: BlockPlan)
    requires
        inputs <= u32::MAX,
        outputs <= u32::MAX,
    ensures
        r@ == router_core(
            instance_id@,
            inputs as int,
            outputs as int,
            plan::rows(matrix@),
        ),
{
    let gatherer = plan::member_id(instance_id, "interleave_in");
    let setter = plan::member_id(instance_id, "capssetter_in");
    let mix_id = instance_id.to_owned().concat(MATRIX_ELEMENT_ID_TAIL);
    let mixed = plan::member_id(instance_id, "capssetter_matrix");
    let splitter = plan::member_id(instance_id, "deinterleave_out");
    let mut parts = BlockPlan::new();
    parts.add(gather_inputs(instance_id, inputs));
    parts.add(make_capssetter(setter.as_str(), inputs));
    let mut mix = ElementSpec::new(mix_id.as_str(), "audiomixmatrix");
    mix.set("in-channels", SettingValue::U32(inputs as u32));
    mix.set("out-channels", SettingValue::U32(outputs as u32));
    mix.set("matrix", SettingValue::Matrix(matrix));
    parts.add(mix);
    parts.add(make_capssetter(mixed.as_str(), outputs));
    parts.link(gatherer.as_str(), "src", setter.as_str(), "sink");
    parts.link(setter.as_str(), "src", mix_id.as_str(), "sink");
    parts.link(mix_id.as_str(), "src", mixed.as_str(), "sink");
    parts.link(mixed.as_str(), "src", splitter.as_str(), "sink");
    parts
}

/// A plan of the block, and the layout to remember under the id of the element
/// that mixes.
pub struct RouterBuild {
    pub plan: BlockPlan,
    pub matrix_id: String,
    pub layout: ChannelLayout,
}

impl LiveAudioRouterBuilder {
    /// The pads that the block shows with the given properties.
    pub fn get_external_pads(&self, properties: &Properties) -> (r: Option<ExternalPads>)
        ensures
            r matches Some(pads) && pads@ == stream_pads(
                routing::input_layout(properties@).len(),
                routing::output_layout(properties@).len(),
            ),
    {
        let num_inputs = routing::parse_num_streams(properties, "num_inputs");
        let num_outputs = routing::parse_num_streams(properties, "num_outputs");
        Some(pads_for_streams(num_inputs, num_outputs))
    }

    /// What the block is built of with the given properties.
    pub fn build(&self, instance_id: &str, properties: &Properties) -> (r: RouterBuild)
        ensures
            r.plan@ == router_plan(
                instance_id@,
                routing::layout_of(properties@),
                routing::matrix_asked(properties@),
            ),
            r.matrix_id@ == instance_id@ + MATRIX_ELEMENT_ID_TAIL@,
            r.layout@ == routing::layout_of(properties@),
            routing::layout_fits(r.layout@),
    {
        let layout = routing::read_layout(properties);
        let routing = routing::parse_routing_matrix(properties);
        let inputs = routing::channel_total(&layout.inputs);
        let outputs = routing::channel_total(&layout.outputs);
        let matrix = routing::build_matrix(&routing, &layout.inputs, &layout.outputs);
        let mut parts = shared_parts(instance_id, inputs, outputs, matrix);
        let ghost base = parts@;
        let mut i: usize = 0;
        while i < layout.outputs.len()
            invariant
                i <= layout.outputs.len(),
                parts@ == with_output_streams(base, instance_id@, layout.outputs@, i as nat),
            decreases layout.outputs.len() - i,
        {
            add_output_stream(&mut parts, instance_id, i, layout.outputs[i]);
            i += 1;
        }
        let splitter = plan::member_id(instance_id, "deinterleave_out");
        parts.add(make_deinterleave(splitter.as_str()));
        let ghost base = parts@;
        let mut j: usize = 0;
        while j < layout.inputs.len()
            invariant
                j <= layout.inputs.len(),
                parts@ == with_input_streams(base, instance_id@, j as nat),
            decreases layout.inputs.len() - j,
        {
            add_input_stream(&mut parts, instance_id, j);
            j += 1;
        }
        RouterBuild {
            plan: parts,
            matrix_id: instance_id.to_owned().concat(MATRIX_ELEMENT_ID_TAIL),
            layout,
        }
    }
}

// ---------------------------------------------------------------------------
// Pads that appear later
// ---------------------------------------------------------------------------

/// How a channel that appeared is joined: through a queue, into a sink pad of
/// the element that gathers a stream.
pub struct ChannelLink {
    pub queue_id: String,
    /// The output stream; nothing for the element that gathers the inputs.
    pub stream: Option<usize>,
    pub sink_name: String,
}

pub struct ChannelLinkInfo {
    pub queue_id: Seq<char>,
    pub stream: Option<int>,
    pub sink_name: Seq<char>,
}

impl View for ChannelLink {
    type V = ChannelLinkInfo;

    open spec fn view(&self) -> ChannelLinkInfo {
        ChannelLinkInfo {
            queue_id: self.queue_id@,
            stream: match self.stream {
                Some(i) => Some(i as int),
                None => None,
            },
            sink_name: self.sink_name@,
        }
    }
}

/// The channel that a pad named such as `src_0` is of.
pub open spec fn channel_of_pad(name: Seq<char>) -> Option<nat> {
    if text::has_prefix(name, "src_"@) {
        text::parsed_number(name.skip("src_"@.len() as int), usize::MAX as nat)
    } else {
        None
    }
}

/// The channel that a pad named such as `src_0` is of.
pub fn parse_channel_from_pad_name(pad_name: &str) -> (r: Option<usize>)
    ensures
        r matches Some(n) ==> channel_of_pad(pad_name@) == Some(n as nat),
        r is None ==> channel_of_pad(pad_name@) is None,
{
    match text::strip_prefix(pad_name, "src_") {
        Some(rest) => text::parse_usize(rest.as_str()),
        None => None,
    }
}

/// How a channel out of the matrix is joined: into the stream that it belongs
/// to, counted from the start of that stream.
pub open spec fn output_link(
    instance: Seq<char>,
    pad_name: Seq<char>,
    outputs: Seq<usize>,
) -> Option<ChannelLinkInfo> {
    match channel_of_pad(pad_name) {
        Some(channel) => match routing::stream_at(outputs, channel as int) {
            Some(stream) => Some(
                ChannelLinkInfo {
                    queue_id: plan::member(instance, plan::numbered("queue_out_ch"@, channel as int)),
                    stream: Some(stream),
                    sink_name: plan::numbered("sink_"@, channel - routing::offset(outputs, stream)),
                },
            ),
            None => None,
        },
        None => None,
    }
}

/// How a channel out of the matrix is joined.
pub fn link_output_channel(instance_id: &str, pad_name: &str, outputs: &Vec<usize>) -> (r: Option<
    ChannelLink,
>)
    requires
        routing::total(outputs@) <= usize::MAX,
    ensures
        r matches Some(link) ==> output_link(instance_id@, pad_name@, outputs@) == Some(link@),
        r is None ==> output_link(instance_id@, pad_name@, outputs@) is None,
{
    match parse_channel_from_pad_name(pad_name) {
        Some(channel) => match routing::stream_for_channel(channel, outputs) {
            Some((stream, local)) => {
                let name = plan::numbered_name("queue_out_ch", channel);
                Some(
                    ChannelLink {
                        queue_id: plan::member_id(instance_id, name.as_str()),
                        stream: Some(stream),
                        sink_name: plan::numbered_name("sink_", local),
                    },
                )
            },
            None => None,
        },
        None => None,
    }
}

/// How a channel of an input stream is joined: at its place among all input
/// channels. A channel that the stream is not to have is left out.
pub open spec fn input_link(
    instance: Seq<char>,
    pad_name: Seq<char>,
    inputs: Seq<usize>,
    stream: int,
) -> Option<ChannelLinkInfo> {
    match channel_of_pad(pad_name) {
        Some(channel) => match routing::place(inputs, (stream, channel as int)) {
            Some(at) => Some(
                ChannelLinkInfo {
                    queue_id: plan::member(instance, plan::numbered("queue_in_ch"@, at)),
                    stream: None,
                    sink_name: plan::numbered("sink_"@, at),
                },
            ),
            None => None,
        },
        None => None,
    }
}

/// How a channel of an input stream is joined.
pub fn link_input_channel(
    instance_id: &str,
    pad_name: &str,
    inputs: &Vec<usize>,
    stream: usize,
) -> (r: Option<ChannelLink>)
    requires
        routing::total(inputs@) <= usize::MAX,
        stream < inputs.len(),
    ensures
        r matches Some(link) ==> input_link(instance_id@, pad_name@, inputs@, stream as int)
            == Some(link@),
        r is None ==> input_link(instance_id@, pad_name@, inputs@, stream as int) is None,
{
    match parse_channel_from_pad_name(pad_name) {
        Some(channel) => {
            if channel >= inputs[stream] {
                return None;
            }
            proof {
                routing::places_are_inside(
                    inputs@,
                    (stream as int, channel as int),
                );
            }
            let offsets = routing::channel_offsets(inputs);
            let at: usize = offsets[stream] + channel;
            let name = plan::numbered_name("queue_in_ch", at);
            Some(
                ChannelLink {
                    queue_id: plan::member_id(instance_id, name.as_str()),
                    stream: None,
                    sink_name: plan::numbered_name("sink_", at),
                },
            )
        },
        None => None,
    }
}

// ---------------------------------------------------------------------------
// Laws
// ---------------------------------------------------------------------------

proof fn lemma_outputs(
    base: PlanInfo,
    instance: Seq<char>,
    outputs: Seq<usize>,
    n: nat,
    host: PlanInfo,
)
    requires
        n <= outputs.len(),
    ensures
        base.within(with_output_streams(base, instance, outputs, n)),
        forall|i: int|
            0 <= i < n ==> with_output_streams(base, instance, outputs, n).has_element(
                #[trigger] plan::member(instance, plan::numbered("queue_out_"@, i)),
            ),
        base.links_inside(host) && with_output_streams(base, instance, outputs, n).within(host)
            ==> with_output_streams(base, instance, outputs, n).links_inside(host),
    decreases n,
{
    if n > 0 {
        let i = n - 1;
        let gatherer = plan::member(instance, plan::numbered("interleave_"@, i));
        let setter = plan::member(instance, plan::numbered("capssetter_"@, i));
        let queue = plan::member(instance, plan::numbered("queue_out_"@, i));
        let p0 = with_output_streams(base, instance, outputs, i as nat);
        let p1 = p0.add(output_gatherer(instance, i, outputs[i] as int));
        let p2 = p1.add(capssetter(setter, outputs[i] as int));
        let p3 = p2.add(plan::plain_element(queue, "queue"@).labelled("queue_out"@));
        let p4 = p3.link(gatherer, "src"@, setter, "sink"@);
        let p5 = p4.link(setter, "src"@, queue, "sink"@);
        lemma_outputs(base, instance, outputs, i as nat, host);
        lemma_gatherer_id(interleave(gatherer), i, outputs[i] as nat);
        plan::lemma_add(p0, output_gatherer(instance, i, outputs[i] as int), host);
        plan::lemma_add(p1, capssetter(setter, outputs[i] as int), host);
        plan::lemma_add(p2, plan::plain_element(queue, "queue"@).labelled("queue_out"@), host);
        plan::lemma_link(p3, gatherer, "src"@, setter, "sink"@, host);
        plan::lemma_link(p4, setter, "src"@, queue, "sink"@, host);
        assert(p1.has_element(gatherer) && p2.has_element(setter) && p3.has_element(queue));
        assert(p5.has_element(gatherer) && p5.has_element(setter) && p5.has_element(queue));
        assert forall|k: int| 0 <= k < n implies p5.has_element(
            #[trigger] plan::member(instance, plan::numbered("queue_out_"@, k)),
        ) by {
            if k < i {
                assert(p0.has_element(plan::member(instance, plan::numbered("queue_out_"@, k))));
            }
        }
    }
}

proof fn lemma_gatherer_id(e: ElementPlan, stream: int, n: nat)
    ensures
        with_output_sinks(e, stream, n).id == e.id,
        with_input_sinks(e, n).id == e.id,
    decreases n,
{
    if n > 0 {
        lemma_gatherer_id(e, stream, (n - 1) as nat);
    }
}

proof fn lemma_inputs(base: PlanInfo, instance: Seq<char>, n: nat, host: PlanInfo)
    ensures
        base.within(with_input_streams(base, instance, n)),
        forall|i: int|
            0 <= i < n ==> with_input_streams(base, instance, n).has_element(
                #[trigger] plan::member(instance, plan::numbered("identity_in_"@, i)),
            ),
        base.links_inside(host) && with_input_streams(base, instance, n).within(host)
            ==> with_input_streams(base, instance, n).links_inside(host),
    decreases n,
{
    if n > 0 {
        let i = n - 1;
        let entry = plan::member(instance, plan::numbered("identity_in_"@, i));
        let splitter = plan::member(instance, plan::numbered("deinterleave_in_"@, i));
        let p0 = with_input_streams(base, instance, i as nat);
        let first = plan::plain_element(entry, "identity"@).with("silent"@, SettingInfo::Bool(true));
        let p1 = p0.add(first);
        let p2 = p1.add(deinterleave(splitter));
        let p3 = p2.link(entry, "src"@, splitter, "sink"@);
        lemma_inputs(base, instance, i as nat, host);
        plan::lemma_add(p0, first, host);
        plan::lemma_add(p1, deinterleave(splitter), host);
        plan::lemma_link(p2, entry, "src"@, splitter, "sink"@, host);
        assert(p1.has_element(entry) && p2.has_element(splitter));
        assert(p3.has_element(entry) && p3.has_element(splitter));
        assert forall|k: int| 0 <= k < n implies p3.has_element(
            #[trigger] plan::member(instance, plan::numbered("identity_in_"@, k)),
        ) by {
            if k < i {
                assert(p0.has_element(plan::member(instance, plan::numbered("identity_in_"@, k))));
            }
        }
    }
}

/// Every connection inside the block is between elements of the block, and
/// every pad that the block shows is a pad of one of them.
pub proof fn router_is_connected(
    instance: Seq<char>,
    layout: LayoutInfo,
    matrix: Seq<Seq<bool>>,
)
    ensures
        router_plan(instance, layout, matrix).links_hold(),
        forall|i: int|
            0 <= i < layout.inputs.len() ==> router_plan(instance, layout, matrix).has_element(
                #[trigger] plan::member(instance, plan::numbered("identity_in_"@, i)),
            ),
        forall|i: int|
            0 <= i < layout.outputs.len() ==> router_plan(instance, layout, matrix).has_element(
                #[trigger] plan::member(instance, plan::numbered("queue_out_"@, i)),
            ),
{
    let inputs = routing::total(layout.inputs);
    let outputs = routing::total(layout.outputs);
    let gatherer = plan::member(instance, "interleave_in"@);
    let setter = plan::member(instance, "capssetter_in"@);
    let mix = instance + MATRIX_ELEMENT_ID_TAIL@;
    let mixed = plan::member(instance, "capssetter_matrix"@);
    let splitter = plan::member(instance, "deinterleave_out"@);
    let host = router_plan(instance, layout, matrix);
    let core = router_core(instance, inputs, outputs, matrix);
    let mid = with_output_streams(core, instance, layout.outputs, layout.outputs.len());
    let all = mid.add(deinterleave(splitter));

    lemma_gatherer_id(interleave(gatherer), 0, inputs as nat);
    assert(core.elements[0].id == gatherer);
    assert(core.elements[1].id == setter);
    assert(core.elements[2].id == mix);
    assert(core.elements[3].id == mixed);
    lemma_outputs(core, instance, layout.outputs, layout.outputs.len(), host);
    plan::lemma_add(mid, deinterleave(splitter), host);
    lemma_inputs(all, instance, layout.inputs.len(), host);
    assert(core.has_element(gatherer) && core.has_element(setter) && core.has_element(mix)
        && core.has_element(mixed) && all.has_element(splitter));
    assert(mid.has_element(gatherer) && mid.has_element(setter) && mid.has_element(mix)
        && mid.has_element(mixed));
    assert(host.has_element(gatherer) && host.has_element(setter) && host.has_element(mix)
        && host.has_element(mixed) && host.has_element(splitter));
    assert(core.links_inside(host));
    assert forall|i: int| 0 <= i < layout.outputs.len() implies host.has_element(
        #[trigger] plan::member(instance, plan::numbered("queue_out_"@, i)),
    ) by {
        assert(mid.has_element(plan::member(instance, plan::numbered("queue_out_"@, i))));
        assert(all.has_element(plan::member(instance, plan::numbered("queue_out_"@, i))));
    }
    assert(mid.within(host)) by {
        assert forall|id: Seq<char>| #[trigger] mid.has_element(id) implies host.has_element(
            id,
        ) by {
            assert(all.has_element(id));
        }
    }
}

/// The parts that all streams share.
pub open spec fn core_tags() -> Seq<plan::Tag> {
    seq![
        ("interleave_in"@, None),
        ("capssetter_in"@, None),
        ("matrix"@, None),
        ("capssetter_matrix"@, None),
    ]
}

/// The parts of the first `n` output streams.
pub open spec fn output_tags(n: nat) -> Seq<plan::Tag> {
    Seq::new(
        3 * n,
        |k: int|
            (
                if k % 3 == 0 {
                    "interleave_"@
                } else if k % 3 == 1 {
                    "capssetter_"@
                } else {
                    "queue_out_"@
                },
                Some((k / 3) as nat),
            ),
    )
}

/// The parts of the first `n` input streams.
pub open spec fn input_tags(n: nat) -> Seq<plan::Tag> {
    Seq::new(
        2 * n,
        |k: int|
            (
                if k % 2 == 0 {
                    "identity_in_"@
                } else {
                    "deinterleave_in_"@
                },
                Some((k / 2) as nat),
            ),
    )
}

proof fn lemma_outputs_are_tagged(
    base: PlanInfo,
    instance: Seq<char>,
    tags: Seq<plan::Tag>,
    outputs: Seq<usize>,
    n: nat,
)
    requires
        plan::tagged(base, instance, tags),
    ensures
        plan::tagged(
            with_output_streams(base, instance, outputs, n),
            instance,
            tags + output_tags(n),
        ),
    decreases n,
{
    if n > 0 {
        let m = (n - 1) as nat;
        lemma_outputs_are_tagged(base, instance, tags, outputs, m);
        let gatherer = plan::member(instance, plan::numbered("interleave_"@, m as int));
        lemma_gatherer_id(interleave(gatherer), m as int, outputs[m as int] as nat);
        let all = with_output_streams(base, instance, outputs, n);
        let shorter = tags + output_tags(m);
        let longer = tags + output_tags(n);
        assert forall|i: int| 0 <= i < longer.len() implies (#[trigger] all.elements[i]).id
            == plan::member(instance, plan::spelled(longer[i])) by {
            if i < shorter.len() {
                assert(longer[i] == shorter[i]);
            }
        }
    } else {
        assert(tags + output_tags(0) =~= tags);
    }
}

proof fn lemma_inputs_are_tagged(
    base: PlanInfo,
    instance: Seq<char>,
    tags: Seq<plan::Tag>,
    n: nat,
)
    requires
        plan::tagged(base, instance, tags),
    ensures
        plan::tagged(with_input_streams(base, instance, n), instance, tags + input_tags(n)),
    decreases n,
{
    if n > 0 {
        let m = (n - 1) as nat;
        lemma_inputs_are_tagged(base, instance, tags, m);
        let all = with_input_streams(base, instance, n);
        let shorter = tags + input_tags(m);
        let longer = tags + input_tags(n);
        assert forall|i: int| 0 <= i < longer.len() implies (#[trigger] all.elements[i]).id
            == plan::member(instance, plan::spelled(longer[i])) by {
            if i < shorter.len() {
                assert(longer[i] == shorter[i]);
            }
        }
    } else {
        assert(tags + input_tags(0) =~= tags);
    }
}

/// The parts of a router with the given numbers of streams.
pub open spec fn router_tags(inputs: nat, outputs: nat) -> Seq<plan::Tag> {
    (core_tags() + output_tags(outputs)).push(("deinterleave_out"@, None)) + input_tags(inputs)
}

proof fn lemma_shared_names_differ()
    ensures
        plan::tags_differ(core_tags().push(("deinterleave_out"@, None))),
{
    reveal_strlit("interleave_in");
    reveal_strlit("capssetter_in");
    reveal_strlit("matrix");
    reveal_strlit("capssetter_matrix");
    reveal_strlit("deinterleave_out");
    assert("interleave_in"@[0] == 'i' && "capssetter_in"@[0] == 'c');
    assert("interleave_in"@.len() == 13 && "capssetter_in"@.len() == 13);
    assert("matrix"@.len() == 6 && "capssetter_matrix"@.len() == 17);
    assert("deinterleave_out"@.len() == 16);
    assert(plan::is_stem("interleave_in"@) && plan::is_stem("capssetter_in"@));
    assert(plan::is_stem("matrix"@) && plan::is_stem("capssetter_matrix"@));
    assert(plan::is_stem("deinterleave_out"@));
}

proof fn lemma_output_names_differ(n: nat)
    ensures
        plan::tags_differ(output_tags(n)),
{
    reveal_strlit("interleave_");
    reveal_strlit("capssetter_");
    reveal_strlit("queue_out_");
    assert("interleave_"@[0] == 'i' && "capssetter_"@[0] == 'c' && "queue_out_"@[0] == 'q');
    assert(plan::is_stem("interleave_"@) && plan::is_stem("capssetter_"@));
    assert(plan::is_stem("queue_out_"@));
}

proof fn lemma_input_names_differ(n: nat)
    ensures
        plan::tags_differ(input_tags(n)),
{
    reveal_strlit("identity_in_");
    reveal_strlit("deinterleave_in_");
    assert("identity_in_"@[0] == 'i' && "deinterleave_in_"@[0] == 'd');
    assert(plan::is_stem("identity_in_"@) && plan::is_stem("deinterleave_in_"@));
}

proof fn lemma_output_and_input_names_differ()
    ensures
        "identity_in_"@ != "interleave_"@,
        "identity_in_"@ != "capssetter_"@,
        "identity_in_"@ != "queue_out_"@,
        "deinterleave_in_"@ != "interleave_"@,
        "deinterleave_in_"@ != "capssetter_"@,
        "deinterleave_in_"@ != "queue_out_"@,
{
    reveal_strlit("interleave_");
    reveal_strlit("capssetter_");
    reveal_strlit("queue_out_");
    reveal_strlit("identity_in_");
    reveal_strlit("deinterleave_in_");
    assert("identity_in_"@.len() == 12 && "deinterleave_in_"@.len() == 16);
    assert("interleave_"@.len() == 11 && "capssetter_"@.len() == 11 && "queue_out_"@.len() == 10);
}

proof fn lemma_router_tags_differ(inputs: nat, outputs: nat)
    ensures
        plan::tags_differ(router_tags(inputs, outputs)),
{
    let tags = router_tags(inputs, outputs);
    let shared = core_tags().push(("deinterleave_out"@, None));
    let middle: int = 4 + 3 * (outputs as int);
    assert forall|i: int| 0 <= i < tags.len() implies #[trigger] tags[i] == if i < 4 {
        shared[i]
    } else if i < middle {
        output_tags(outputs)[i - 4]
    } else if i == middle {
        shared[4]
    } else {
        input_tags(inputs)[i - middle - 1]
    } by {}
    lemma_shared_names_differ();
    lemma_output_names_differ(outputs);
    lemma_input_names_differ(inputs);
    lemma_output_and_input_names_differ();
    assert forall|i: int, j: int| 0 <= i < j < tags.len() implies #[trigger] tags[i]
        != #[trigger] tags[j] by {
        let a = tags[i];
        let b = tags[j];
        assert(a.1 is None <==> i < 4 || i == middle);
        assert(b.1 is None <==> j < 4 || j == middle);
        if i < 4 && j < 4 {
            assert(shared[i] != shared[j]);
        } else if i < 4 && j == middle {
            assert(shared[i] != shared[4]);
        } else if 4 <= i && j < middle {
            assert(output_tags(outputs)[i - 4] != output_tags(outputs)[j - 4]);
        } else if middle < i {
            assert(input_tags(inputs)[i - middle - 1] != input_tags(inputs)[j - middle - 1]);
        }
    }
}

/// No two elements of the block have the same id.
pub proof fn router_ids_differ(instance: Seq<char>, layout: LayoutInfo, matrix: Seq<Seq<bool>>)
    ensures
        router_plan(instance, layout, matrix).ids_differ(),
{
    let inputs = routing::total(layout.inputs);
    let outputs = routing::total(layout.outputs);
    let core = router_core(instance, inputs, outputs, matrix);
    lemma_gatherer_id(interleave(plan::member(instance, "interleave_in"@)), 0, inputs as nat);
    assert(instance + MATRIX_ELEMENT_ID_TAIL@ =~= plan::member(instance, "matrix"@)) by {
        reveal_strlit(":matrix");
        reveal_strlit(":");
        reveal_strlit("matrix");
    }
    assert(plan::tagged(core, instance, core_tags()));
    lemma_outputs_are_tagged(core, instance, core_tags(), layout.outputs, layout.outputs.len());
    let mid = with_output_streams(core, instance, layout.outputs, layout.outputs.len()).add(
        deinterleave(plan::member(instance, "deinterleave_out"@)),
    );
    let tags = (core_tags() + output_tags(layout.outputs.len())).push(("deinterleave_out"@, None));
    assert(plan::tagged(mid, instance, tags));
    lemma_inputs_are_tagged(mid, instance, tags, layout.inputs.len());
    lemma_router_tags_differ(layout.inputs.len(), layout.outputs.len());
    plan::lemma_tags_keep_ids_apart(
        router_plan(instance, layout, matrix),
        instance,
        router_tags(layout.inputs.len(), layout.outputs.len()),
    );
}

/// Two channels of the inputs share neither a queue nor a pad of what gathers
/// them.
pub proof fn input_channels_stay_apart(
    instance: Seq<char>,
    inputs: Seq<usize>,
    a: (Seq<char>, int),
    b: (Seq<char>, int),
)
    requires
        input_link(instance, a.0, inputs, a.1) is Some,
        input_link(instance, b.0, inputs, b.1) is Some,
        a.1 != b.1 || channel_of_pad(a.0) != channel_of_pad(b.0),
    ensures
        input_link(instance, a.0, inputs, a.1)->0.queue_id != input_link(
            instance,
            b.0,
            inputs,
            b.1,
        )->0.queue_id,
        input_link(instance, a.0, inputs, a.1)->0.sink_name != input_link(
            instance,
            b.0,
            inputs,
            b.1,
        )->0.sink_name,
{
    let one = (a.1, channel_of_pad(a.0)->0 as int);
    let other = (b.1, channel_of_pad(b.0)->0 as int);
    let i = routing::place(inputs, one)->0;
    let j = routing::place(inputs, other)->0;
    routing::places_are_inside(inputs, one);
    routing::places_are_inside(inputs, other);
    if i == j {
        routing::places_differ(inputs, one, other);
    }
    reveal_strlit("queue_in_ch");
    reveal_strlit("sink_");
    plan::spelling_is_injective(("queue_in_ch"@, Some(i as nat)), ("queue_in_ch"@, Some(j as nat)));
    plan::spelling_is_injective(("sink_"@, Some(i as nat)), ("sink_"@, Some(j as nat)));
    plan::member_is_injective(
        instance,
        plan::numbered("queue_in_ch"@, i),
        plan::numbered("queue_in_ch"@, j),
    );
}

/// Two channels out of the matrix share no queue, and no pad of the stream that
/// both are joined into.
pub proof fn output_channels_stay_apart(
    instance: Seq<char>,
    outputs: Seq<usize>,
    a: Seq<char>,
    b: Seq<char>,
)
    requires
        output_link(instance, a, outputs) is Some,
        output_link(instance, b, outputs) is Some,
        channel_of_pad(a) != channel_of_pad(b),
    ensures
        output_link(instance, a, outputs)->0.queue_id != output_link(
            instance,
            b,
            outputs,
        )->0.queue_id,
        output_link(instance, a, outputs)->0.stream == output_link(instance, b, outputs)->0.stream
            ==> output_link(instance, a, outputs)->0.sink_name != output_link(
            instance,
            b,
            outputs,
        )->0.sink_name,
{
    let i = channel_of_pad(a)->0;
    let j = channel_of_pad(b)->0;
    let k = routing::stream_at(outputs, i as int)->0;
    let l = routing::stream_at(outputs, j as int)->0;
    routing::stream_holds_its_places(outputs, i as int);
    routing::stream_holds_its_places(outputs, j as int);
    reveal_strlit("queue_out_ch");
    reveal_strlit("sink_");
    plan::spelling_is_injective(("queue_out_ch"@, Some(i)), ("queue_out_ch"@, Some(j)));
    plan::spelling_is_injective(
        ("sink_"@, Some((i - routing::offset(outputs, k)) as nat)),
        ("sink_"@, Some((j - routing::offset(outputs, l)) as nat)),
    );
    plan::member_is_injective(
        instance,
        plan::numbered("queue_out_ch"@, i as int),
        plan::numbered("queue_out_ch"@, j as int),
    );
}

// ---------------------------------------------------------------------------
// Definition
// ---------------------------------------------------------------------------

/// The property that says how many channels a stream has.
pub open spec fn channels_info(side: Seq<char>, title: Seq<char>, i: int) -> PropertyInfo {
    let number = text::decimal(i as nat);
    definition::block_property(
        routing::channels_name(side, i),
        title + " "@ + number + " Channels"@,
        "Number of channels for "@ + side + " stream "@ + number + " (1-64)"@,
        TypeInfo::UInt,
        PropertyTree::UInt(2),
    )
}

/// The definition with a property for each of the first `n` streams of a side.
pub open spec fn with_channels(
    definition: DefinitionInfo,
    side: Seq<char>,
    title: Seq<char>,
    n: nat,
) -> DefinitionInfo
    decreases n,
{
    if n == 0 {
        definition
    } else {
        with_channels(definition, side, title, (n - 1) as nat).property(
            channels_info(side, title, n - 1),
        )
    }
}

/// How the block presents itself.
pub open spec fn router_definition() -> DefinitionInfo {
    let head = definition::built_in_block(
        BLOCK_ID@,
        "Live Audio Router"@,
        "Route audio channels between multiple input and output streams using a flexible routing matrix. Supports fan-out and mixing, and the routing can be changed while the flow is running."@,
        "Audio"@,
        stream_pads(2, 2),
        definition::plain_looks(Some("🔀"@), 30, 25),
    ).property(
        definition::block_property(
            "num_inputs"@,
            "Number of Inputs"@,
            "Number of input audio streams (1-8)"@,
            TypeInfo::UInt,
            PropertyTree::UInt(2),
        ),
    ).property(
        definition::block_property(
            "num_outputs"@,
            "Number of Outputs"@,
            "Number of output audio streams (1-8)"@,
            TypeInfo::UInt,
            PropertyTree::UInt(2),
        ),
    );
    with_channels(with_channels(head, "input"@, "Input"@, 8), "output"@, "Output"@, 8).property(
        definition::element_property(
            "routing_matrix"@,
            "Routing Matrix"@,
            "JSON routing matrix. Format: {\"i0c0\": [\"o0c0\", \"o1c0\"]} where iXcY = input X channel Y, oXcY = output X channel Y. Applies to a running flow."@,
            TypeInfo::Multiline,
            Some(PropertyTree::Text("{}"@)),
            "matrix"@,
            "routing_matrix"@,
            true,
        ),
    )
}

fn channels_entry(side: &str, title: &str, i: usize) -> (r: ExposedProperty)
    ensures
        r@ == channels_info(side@, title@, i as int),
{
    let name = routing::channels_property(side, i);
    let number = text::usize_text(i);
    let label = title.to_owned().concat(" ").concat(number.as_str()).concat(" Channels");
    let description = "Number of channels for ".to_owned().concat(side).concat(
        " stream ",
    ).concat(number.as_str()).concat(" (1-64)");
    definition::for_block(
        name.as_str(),
        label.as_str(),
        description.as_str(),
        PropertyType::UInt,
        PropertyValue::UInt(2),
    )
}

fn add_channels(definition: &mut BlockDefinition, side: &str, title: &str)
    ensures
        final(definition)@ == with_channels(old(definition)@, side@, title@, 8),
{
    let ghost base = definition@;
    let mut i: usize = 0;
    while i < 8
        invariant
            i <= 8,
            definition@ == with_channels(base, side@, title@, i as nat),
        decreases 8 - i,
    {
        definition.property(channels_entry(side, title, i));
        i += 1;
    }
}

/// How the block presents itself.
pub fn liveaudiorouter_definition() -> (r: BlockDefinition)
    ensures
        r@ == router_definition(),
{
    let mut d = BlockDefinition::built_in(
        BLOCK_ID,
        "Live Audio Router",
        "Route audio channels between multiple input and output streams using a flexible routing matrix. Supports fan-out and mixing, and the routing can be changed while the flow is running.",
        "Audio",
        pads_for_streams(2, 2),
        definition::plain_ui(Some("🔀"), 30, 25),
    );
    d.property(
        definition::for_block(
            "num_inputs",
            "Number of Inputs",
            "Number of input audio streams (1-8)",
            PropertyType::UInt,
            PropertyValue::UInt(2),
        ),
    );
    d.property(
        definition::for_block(
            "num_outputs",
            "Number of Outputs",
            "Number of output audio streams (1-8)",
            PropertyType::UInt,
            PropertyValue::UInt(2),
        ),
    );
    add_channels(&mut d, "input", "Input");
    add_channels(&mut d, "output", "Output");
    d.property(
        definition::for_element(
            "routing_matrix",
            "Routing Matrix",
            "JSON routing matrix. Format: {\"i0c0\": [\"o0c0\", \"o1c0\"]} where iXcY = input X channel Y, oXcY = output X channel Y. Applies to a running flow.",
            PropertyType::Multiline,
            Some(PropertyValue::String("{}".to_owned())),
            "matrix",
            "routing_matrix",
            true,
        ),
    );
    d
}

/// The blocks of this kind.
pub fn get_blocks() -> (r: Vec<BlockDefinition>)
    ensures
        definition::definition_infos(r@) == seq![router_definition()],
{
    definition::only(liveaudiorouter_definition())
}

} // verus!
