//! How audio is routed: laws on the streams that a router has, on the routes that
//! a text stands for, and on what carries a channel from its input to its output.

use crate::blocks::contents;
use crate::blocks::definition::{DefinitionInfo, MediaType};
use crate::blocks::liveaudiorouter;
use crate::blocks::plan;
use crate::blocks::plan::{CapsFieldInfo, ElementPlan, PlanInfo, SettingInfo};
use crate::blocks::routing;
use crate::blocks::routing::{LayoutInfo, LayoutMap, RouteEntries, RouteInfo, Spot};
use crate::properties::{PropertyMap, PropertyTree};
use crate::sequences;
use crate::text;
use vstd::prelude::*;

verus! {

// ---------------------------------------------------------------------------
// Streams and channels
// ---------------------------------------------------------------------------

/// How many are asked for under a name: two where nothing above zero is.
pub open spec fn wanted(p: PropertyMap, name: Seq<char>) -> int {
    match text::lookup(p, name) {
        Some(PropertyTree::UInt(n)) => n as int,
        Some(PropertyTree::Int(n)) => if n > 0 {
            n as int
        } else {
            2
        },
        _ => 2,
    }
}

/// The number of channels nearest to a number.
pub open spec fn in_range(n: int) -> int {
    if n < 1 {
        1
    } else if n > 64 {
        64
    } else {
        n
    }
}

proof fn lemma_name_of_input(i: int)
    ensures
        routing::channels_name("input"@, i) == "input_"@ + text::decimal(i as nat) + "_channels"@,
{
    reveal_strlit("input");
    reveal_strlit("_");
    reveal_strlit("input_");
    assert("input"@ + "_"@ =~= "input_"@);
}

proof fn lemma_name_of_output(i: int)
    ensures
        routing::channels_name("output"@, i) == "output_"@ + text::decimal(i as nat)
            + "_channels"@,
{
    reveal_strlit("output");
    reveal_strlit("_");
    reveal_strlit("output_");
    assert("output"@ + "_"@ =~= "output_"@);
}

/// As many streams are there as are asked for, and as many channels in each, but at
/// least one and at most eight streams of sixty-four channels.
pub proof fn streams_are_as_asked_for(p: PropertyMap)
    ensures
        ({
            let layout = routing::layout_of(p);
            &&& 1 <= wanted(p, "num_inputs"@) <= 8 ==> layout.inputs.len() == wanted(
                p,
                "num_inputs"@,
            )
            &&& wanted(p, "num_inputs"@) > 8 ==> layout.inputs.len() == 8
            &&& wanted(p, "num_inputs"@) < 1 ==> layout.inputs.len() == 1
            &&& 1 <= wanted(p, "num_outputs"@) <= 8 ==> layout.outputs.len() == wanted(
                p,
                "num_outputs"@,
            )
            &&& wanted(p, "num_outputs"@) > 8 ==> layout.outputs.len() == 8
            &&& wanted(p, "num_outputs"@) < 1 ==> layout.outputs.len() == 1
        }),
        forall|i: int|
            0 <= i < routing::layout_of(p).inputs.len()
                ==> #[trigger] routing::layout_of(p).inputs[i] == in_range(
                wanted(p, "input_"@ + text::decimal(i as nat) + "_channels"@),
            ),
        forall|i: int|
            0 <= i < routing::layout_of(p).outputs.len()
                ==> #[trigger] routing::layout_of(p).outputs[i] == in_range(
                wanted(p, "output_"@ + text::decimal(i as nat) + "_channels"@),
            ),
{
    assert forall|i: int| 0 <= i < routing::layout_of(p).inputs.len() implies #[trigger]
        routing::layout_of(p).inputs[i] == in_range(
        wanted(p, "input_"@ + text::decimal(i as nat) + "_channels"@),
    ) by {
        lemma_name_of_input(i);
    }
    assert forall|i: int| 0 <= i < routing::layout_of(p).outputs.len() implies #[trigger]
        routing::layout_of(p).outputs[i] == in_range(
        wanted(p, "output_"@ + text::decimal(i as nat) + "_channels"@),
    ) by {
        lemma_name_of_output(i);
    }
}

/// The channels of all streams stand side by side: those of a stream begin where
/// those of the one before end, the first channel of all stands first, and
/// together there are as many as all streams have.
pub proof fn channels_stand_side_by_side(channels: Seq<usize>, stream: int, channel: int)
    requires
        0 <= stream < channels.len(),
        0 <= channel < channels[stream],
    ensures
        routing::offset(channels, 0) == 0,
        routing::offset(channels, stream + 1) == routing::offset(channels, stream)
            + channels[stream],
        routing::offset(channels, channels.len() as int) == routing::total(channels),
        routing::place(channels, (stream, channel)) == Some(
            routing::offset(channels, stream) + channel,
        ),
        routing::place(channels, (stream, channels[stream] as int)) is None,
        routing::place(channels, (channels.len() as int, channel)) is None,
{
    routing::lemma_offset_step(channels, stream);
    assert(channels.take(0).len() == 0);
    assert(channels.take(channels.len() as int) =~= channels);
}

// ---------------------------------------------------------------------------
// Routes
// ---------------------------------------------------------------------------

/// Some route leads from a channel to just those destinations.
pub open spec fn has_route(routes: Seq<RouteInfo>, source: Spot, destinations: Seq<Spot>) -> bool {
    exists|k: int|
        0 <= k < routes.len() && (#[trigger] routes[k]).source == source && routes[k].destinations
            == destinations
}

/// An entry stands for a route.
pub open spec fn is_route(entry: (Seq<char>, Seq<Seq<char>>), source: Spot) -> bool {
    routing::named_spot(entry.0, 'i') == Some(source) && routing::named_destinations(
        entry.1,
    ).len() > 0
}

proof fn lemma_with_route(routes: Seq<RouteInfo>, route: RouteInfo)
    ensures
        has_route(routing::with_route(routes, route), route.source, route.destinations),
        forall|source: Spot, destinations: Seq<Spot>|
            source != route.source && #[trigger] has_route(routes, source, destinations)
                ==> has_route(routing::with_route(routes, route), source, destinations),
        forall|source: Spot, destinations: Seq<Spot>| #[trigger]
            has_route(routing::with_route(routes, route), source, destinations) ==> (source
                == route.source && destinations == route.destinations) || has_route(
                routes,
                source,
                destinations,
            ),
{
    lemma_route_from(routes, route.source, 0);
    let all = routing::with_route(routes, route);
    let at = match routing::route_from(routes, route.source, 0) {
        Some(i) => i,
        None => routes.len() as int,
    };
    assert(all[at] == route);
    assert forall|source: Spot, destinations: Seq<Spot>|
        source != route.source && #[trigger] has_route(
            routes,
            source,
            destinations,
        ) implies has_route(all, source, destinations) by {
        let k = choose|k: int|
            0 <= k < routes.len() && (#[trigger] routes[k]).source == source
                && routes[k].destinations == destinations;
        assert(all[k] == routes[k]);
    }
    assert forall|source: Spot, destinations: Seq<Spot>| #[trigger]
        has_route(all, source, destinations) implies (source == route.source && destinations
        == route.destinations) || has_route(routes, source, destinations) by {
        let k = choose|k: int|
            0 <= k < all.len() && (#[trigger] all[k]).source == source && all[k].destinations
                == destinations;
        if k != at {
            assert(all[k] == routes[k]);
        }
    }
}

proof fn lemma_route_from(routes: Seq<RouteInfo>, source: Spot, i: int)
    requires
        0 <= i <= routes.len(),
    ensures
        routing::route_from(routes, source, i) matches Some(k) ==> i <= k < routes.len()
            && routes[k].source == source,
    decreases routes.len() - i,
{
    if i < routes.len() && routes[i].source != source {
        lemma_route_from(routes, source, i + 1);
    }
}

/// A route that is written is there, with all the destinations that are written
/// for it, unless a later one from the same channel takes its place.
pub proof fn written_routes_are_there(entries: RouteEntries, k: int, source: Spot)
    requires
        0 <= k < entries.len(),
        is_route(entries[k], source),
        forall|j: int| k < j < entries.len() ==> !is_route(#[trigger] entries[j], source),
    ensures
        has_route(
            routing::routes_of(entries),
            source,
            routing::named_destinations(entries[k].1),
        ),
    decreases entries.len(),
{
    let before = entries.drop_last();
    let last = entries.last();
    if k == entries.len() - 1 {
        lemma_with_route(
            routing::routes_of(before),
            RouteInfo { source, destinations: routing::named_destinations(last.1) },
        );
    } else {
        assert(before[k] == entries[k]);
        assert forall|j: int| k < j < before.len() implies !is_route(
            #[trigger] before[j],
            source,
        ) by {
            assert(before[j] == entries[j]);
        }
        written_routes_are_there(before, k, source);
        assert(!is_route(entries[entries.len() - 1], source));
        if let Some(other) = routing::named_spot(last.0, 'i') {
            if routing::named_destinations(last.1).len() > 0 {
                lemma_with_route(
                    routing::routes_of(before),
                    RouteInfo {
                        source: other,
                        destinations: routing::named_destinations(last.1),
                    },
                );
            }
        }
    }
}

/// Every route that is there is written.
pub proof fn only_written_routes_are_there(
    entries: RouteEntries,
    source: Spot,
    destinations: Seq<Spot>,
)
    requires
        has_route(routing::routes_of(entries), source, destinations),
    ensures
        exists|k: int|
            0 <= k < entries.len() && is_route(#[trigger] entries[k], source)
                && routing::named_destinations(entries[k].1) == destinations,
    decreases entries.len(),
{
    if entries.len() > 0 {
        let before = entries.drop_last();
        let last = entries.last();
        if let Some(other) = routing::named_spot(last.0, 'i') {
            if routing::named_destinations(last.1).len() > 0 {
                lemma_with_route(
                    routing::routes_of(before),
                    RouteInfo {
                        source: other,
                        destinations: routing::named_destinations(last.1),
                    },
                );
            }
        }
        if has_route(routing::routes_of(before), source, destinations) {
            only_written_routes_are_there(before, source, destinations);
            let k = choose|k: int|
                0 <= k < before.len() && is_route(#[trigger] before[k], source)
                    && routing::named_destinations(before[k].1) == destinations;
            assert(entries[k] == before[k]);
        } else {
            assert(entries[entries.len() - 1] == last);
        }
    }
}

/// A channel is written with the letter of its side, the stream, a `c` and the
/// channel: inputs with `i` and outputs with `o`. A key of one side names nothing
/// on the other.
pub proof fn keys_name_channels_of_their_side(stream: nat, channel: nat)
    requires
        stream <= usize::MAX,
        channel <= usize::MAX,
    ensures
        ({
            let rest = text::decimal(stream) + seq!['c'] + text::decimal(channel);
            let spot = (stream as int, channel as int);
            &&& routing::named_spot(seq!['i'] + rest, 'i') == Some(spot)
            &&& routing::named_spot(seq!['o'] + rest, 'o') == Some(spot)
            &&& routing::named_spot(seq!['i'] + rest, 'o') is None
            &&& routing::named_spot(seq!['o'] + rest, 'i') is None
        }),
{
    routing::routing_key_reads_back('i', stream, channel);
    routing::routing_key_reads_back('o', stream, channel);
    let first = text::decimal(stream);
    let second = text::decimal(channel);
    assert(seq!['i'] + (first + seq!['c'] + second) =~= seq!['i'] + first + seq!['c'] + second);
    assert(seq!['o'] + (first + seq!['c'] + second) =~= seq!['o'] + first + seq!['c'] + second);
}

/// An output channel that is written in a list is one of the destinations that the
/// list names, whatever else is in it, and no input channel is.
pub proof fn listed_outputs_are_destinations(list: Seq<Seq<char>>, k: int, spot: Spot)
    requires
        0 <= k < list.len(),
        routing::named_spot(list[k], 'o') == Some(spot),
    ensures
        routing::named_destinations(list).contains(spot),
{
    let named = |key: Seq<char>| routing::named_spot(key, 'o');
    sequences::lemma_filter_map_holds(list, named, k, list.len() as int);
    assert(list.take(list.len() as int) =~= list);
}

/// No text, an empty one and an empty object ask for no routes; an object asks for
/// those that its members stand for, and anything else for none.
pub proof fn texts_ask_for_their_routes(p: PropertyMap, json: Seq<char>)
    ensures
        !(text::lookup(p, "routing_matrix"@) matches Some(PropertyTree::Text(_)))
            ==> routing::routes_asked(p).len() == 0,
        text::lookup(p, "routing_matrix"@) == Some(PropertyTree::Text(json))
            ==> routing::routes_asked(p) == routing::routes_in(json),
        json.len() == 0 ==> routing::routes_in(json).len() == 0,
        routing::routes_in("{}"@).len() == 0,
        json.len() > 0 && json != "{}"@ ==> (routing::route_document(json) matches Some(entries)
            ==> routing::routes_in(json) == routing::routes_of(entries)),
        routing::route_document(json) is None ==> routing::routes_in(json).len() == 0,
{
}

/// A route that is asked for is heard: the cell of the matrix at the row of the
/// output channel and the column of the input channel is marked, and it is not
/// where no route that is asked for leads from the one to the other.
pub proof fn asked_routes_are_heard(p: PropertyMap, input: Spot, output: Spot)
    requires
        routing::place(routing::input_layout(p), input) is Some,
        routing::place(routing::output_layout(p), output) is Some,
    ensures
        routing::matrix_asked(p)[routing::place(routing::output_layout(p), output)->0][routing::place(
            routing::input_layout(p),
            input,
        )->0] <==> exists|k: int|
            0 <= k < routing::routes_asked(p).len() && (#[trigger] routing::routes_asked(
                p,
            )[k]).source == input && routing::routes_asked(p)[k].destinations.contains(output),
        routing::matrix_asked(p).len() == routing::total(routing::output_layout(p)),
        forall|row: int|
            0 <= row < routing::matrix_asked(p).len() ==> (#[trigger] routing::matrix_asked(
                p,
            )[row]).len() == routing::total(routing::input_layout(p)),
{
    let routes = routing::routes_asked(p);
    let inputs = routing::input_layout(p);
    let outputs = routing::output_layout(p);
    routing::layouts_are_bounded(p);
    if exists|k: int|
        0 <= k < routes.len() && (#[trigger] routes[k]).source == input
            && routes[k].destinations.contains(output) {
        let k = choose|k: int|
            0 <= k < routes.len() && (#[trigger] routes[k]).source == input
                && routes[k].destinations.contains(output);
        let d = choose|d: int|
            0 <= d < routes[k].destinations.len() && routes[k].destinations[d] == output;
        routing::routed_channels_are_joined(routes, inputs, outputs, k, d);
    }
    if routing::matrix_asked(p)[routing::place(outputs, output)->0][routing::place(
        inputs,
        input,
    )->0] {
        routing::joined_channels_are_routed(routes, inputs, outputs, input, output);
    }
}

/// Only a text of routes changes the matrix of a running block, and only that of an
/// element which mixes and whose streams are known.
pub proof fn only_routes_change_a_running_matrix(
    known: LayoutMap,
    element_id: Seq<char>,
    property: Seq<char>,
    value: PropertyTree,
)
    ensures
        routing::live_matrix(known, element_id, property, value) is Some <==> property
            == "routing_matrix"@ && text::has_suffix(element_id, ":matrix"@) && value is Text
            && text::lookup(known, element_id) is Some,
{
}

// ---------------------------------------------------------------------------
// Pads and elements
// ---------------------------------------------------------------------------

/// Each stream has a pad of its own: that of an input is where its chain begins, and
/// that of an output where its chain ends.
pub proof fn streams_have_pads_of_their_own(inputs: nat, outputs: nat, i: int)
    ensures
        liveaudiorouter::stream_pads(inputs, outputs).inputs.len() == inputs,
        liveaudiorouter::stream_pads(inputs, outputs).outputs.len() == outputs,
        0 <= i < inputs ==> ({
            let pad = liveaudiorouter::stream_pads(inputs, outputs).inputs[i];
            &&& pad.name == "audio_in_"@ + text::decimal(i as nat)
            &&& pad.label == Some("A"@ + text::decimal(i as nat))
            &&& pad.media_type == MediaType::Audio
            &&& pad.internal_element_id == "identity_in_"@ + text::decimal(i as nat)
            &&& pad.internal_pad_name == "sink"@
        }),
        0 <= i < outputs ==> ({
            let pad = liveaudiorouter::stream_pads(inputs, outputs).outputs[i];
            &&& pad.name == "audio_out_"@ + text::decimal(i as nat)
            &&& pad.label == Some("A"@ + text::decimal(i as nat))
            &&& pad.media_type == MediaType::Audio
            &&& pad.internal_element_id == "queue_out_"@ + text::decimal(i as nat)
            &&& pad.internal_pad_name == "src"@
        }),
{
}

/// An element of a router that belongs to a stream.
pub open spec fn of_stream(instance: Seq<char>, name: Seq<char>, i: int) -> Seq<char> {
    plan::member(instance, name + text::decimal(i as nat))
}

/// What an input stream is made of: it enters through an element that changes
/// nothing and is taken apart into channels.
pub open spec fn has_input(p: PlanInfo, instance: Seq<char>, i: int) -> bool {
    let entry = of_stream(instance, "identity_in_"@, i);
    let splitter = of_stream(instance, "deinterleave_in_"@, i);
    &&& contents::makes(p, entry, "identity"@)
    &&& contents::sets(p, entry, "silent"@, SettingInfo::Bool(true))
    &&& contents::makes(p, splitter, "deinterleave"@)
    &&& contents::sets(p, splitter, "keep-positions"@, SettingInfo::Bool(false))
    &&& contents::joins(p, entry, "src"@, splitter, "sink"@)
}

/// What an output stream is made of: its channels are gathered, it is said where
/// they are heard, and it leaves through a queue.
pub open spec fn has_output(p: PlanInfo, instance: Seq<char>, i: int, channels: int) -> bool {
    let gatherer = of_stream(instance, "interleave_"@, i);
    let setter = of_stream(instance, "capssetter_"@, i);
    let queue = of_stream(instance, "queue_out_"@, i);
    &&& contents::makes(p, gatherer, "interleave"@)
    &&& contents::sets(
        p,
        gatherer,
        "channel-positions-from-input"@,
        SettingInfo::Bool(false),
    )
    &&& contents::requests(p, gatherer, "sink_%u"@, channels)
    &&& places_channels(p, setter, channels)
    &&& contents::makes(p, queue, "queue"@)
    &&& contents::joins(p, gatherer, "src"@, setter, "sink"@)
    &&& contents::joins(p, setter, "src"@, queue, "sink"@)
}

/// An element says where channels are heard: one in the middle, two at the left
/// and the right, and more at no place in particular.
pub open spec fn places_channels(p: PlanInfo, id: Seq<char>, channels: int) -> bool {
    let mask = if channels == 1 {
        1u64
    } else if channels == 2 {
        3
    } else {
        0
    };
    &&& contents::makes(p, id, "capssetter"@)
    &&& contents::sets(
        p,
        id,
        "caps"@,
        SettingInfo::Caps(
            plan::any_of("audio/x-raw"@).field("channel-mask"@, CapsFieldInfo::Bitmask(mask)),
        ),
    )
    &&& contents::sets(p, id, "join"@, SettingInfo::Bool(true))
}

proof fn lemma_output_sinks(e: ElementPlan, stream: int, n: nat)
    requires
        e.requests.len() == 0,
    ensures
        ({
            let all = liveaudiorouter::with_output_sinks(e, stream, n);
            &&& all.id == e.id
            &&& all.factory == e.factory
            &&& all.settings == e.settings
            &&& contents::asks(all, "sink_%u"@, n as int)
        }),
    decreases n,
{
    if n > 0 {
        lemma_output_sinks(e, stream, (n - 1) as nat);
    }
}

proof fn lemma_input_sinks(e: ElementPlan, n: nat)
    requires
        e.requests.len() == 0,
    ensures
        ({
            let all = liveaudiorouter::with_input_sinks(e, n);
            &&& all.id == e.id
            &&& all.factory == e.factory
            &&& all.settings == e.settings
            &&& contents::asks(all, "sink_%u"@, n as int)
        }),
    decreases n,
{
    if n > 0 {
        lemma_input_sinks(e, (n - 1) as nat);
    }
}

proof fn lemma_output_streams(base: PlanInfo, instance: Seq<char>, outputs: Seq<usize>, n: nat)
    requires
        n <= outputs.len(),
    ensures
        ({
            let all = liveaudiorouter::with_output_streams(base, instance, outputs, n);
            &&& forall|i: int|
                0 <= i < n ==> #[trigger] has_output(all, instance, i, outputs[i] as int)
            &&& contents::held_too(base, all)
            &&& all.elements.len() == base.elements.len() + 3 * n
            &&& all.links.len() == base.links.len() + 2 * n
        }),
    decreases n,
{
    broadcast use contents::what_plans_hold;

    let all = liveaudiorouter::with_output_streams(base, instance, outputs, n);
    if n > 0 {
        let m = (n - 1) as nat;
        lemma_output_streams(base, instance, outputs, m);
        let before = liveaudiorouter::with_output_streams(base, instance, outputs, m);
        let id = plan::member(instance, plan::numbered("interleave_"@, m as int));
        lemma_output_sinks(liveaudiorouter::interleave(id), m as int, outputs[m as int] as nat);
        assert(contents::held_too(before, all));
        assert forall|i: int| 0 <= i < n implies #[trigger] has_output(
            all,
            instance,
            i,
            outputs[i] as int,
        ) by {
            if i < m {
                assert(has_output(before, instance, i, outputs[i] as int));
            }
        }
        assert(contents::held_too(base, all)) by {
            contents::lemma_held_on(base, before, all);
        }
    }
}

proof fn lemma_input_streams(base: PlanInfo, instance: Seq<char>, n: nat)
    ensures
        ({
            let all = liveaudiorouter::with_input_streams(base, instance, n);
            &&& forall|i: int| 0 <= i < n ==> #[trigger] has_input(all, instance, i)
            &&& contents::held_too(base, all)
            &&& all.elements.len() == base.elements.len() + 2 * n
            &&& all.links.len() == base.links.len() + n
        }),
    decreases n,
{
    broadcast use contents::what_plans_hold;

    let all = liveaudiorouter::with_input_streams(base, instance, n);
    if n > 0 {
        let m = (n - 1) as nat;
        lemma_input_streams(base, instance, m);
        let before = liveaudiorouter::with_input_streams(base, instance, m);
        assert(contents::held_too(before, all));
        assert forall|i: int| 0 <= i < n implies #[trigger] has_input(all, instance, i) by {
            if i < m {
                assert(has_input(before, instance, i));
            }
        }
        assert(contents::held_too(base, all)) by {
            contents::lemma_held_on(base, before, all);
        }
    }
}

/// What all streams share: all input channels are gathered and mixed by the
/// matrix into all output channels, which are then taken apart again.
pub open spec fn has_core(
    p: PlanInfo,
    instance: Seq<char>,
    layout: LayoutInfo,
    matrix: Seq<Seq<bool>>,
) -> bool {
    let inputs = routing::total(layout.inputs);
    let outputs = routing::total(layout.outputs);
    let gatherer = plan::member(instance, "interleave_in"@);
    let setter = plan::member(instance, "capssetter_in"@);
    let mix = instance + ":matrix"@;
    let mixed = plan::member(instance, "capssetter_matrix"@);
    let splitter = plan::member(instance, "deinterleave_out"@);
    &&& contents::makes(p, gatherer, "interleave"@)
    &&& contents::sets(
        p,
        gatherer,
        "channel-positions-from-input"@,
        SettingInfo::Bool(false),
    )
    &&& contents::requests(p, gatherer, "sink_%u"@, inputs)
    &&& places_channels(p, setter, inputs)
    &&& contents::makes(p, mix, "audiomixmatrix"@)
    &&& contents::sets(p, mix, "in-channels"@, SettingInfo::U32(inputs as u32))
    &&& contents::sets(p, mix, "out-channels"@, SettingInfo::U32(outputs as u32))
    &&& contents::sets(p, mix, "matrix"@, SettingInfo::Matrix(matrix))
    &&& places_channels(p, mixed, outputs)
    &&& contents::joins(p, gatherer, "src"@, setter, "sink"@)
    &&& contents::joins(p, setter, "src"@, mix, "sink"@)
    &&& contents::joins(p, mix, "src"@, mixed, "sink"@)
    &&& contents::joins(p, mixed, "src"@, splitter, "sink"@)
}

/// A router has a chain for each stream on either side and the matrix between
/// them, and nothing else.
pub proof fn router_has_a_chain_for_each_stream(
    instance: Seq<char>,
    layout: LayoutInfo,
    matrix: Seq<Seq<bool>>,
)
    ensures
        ({
            let all = liveaudiorouter::router_plan(instance, layout, matrix);
            &&& has_core(all, instance, layout, matrix)
            &&& contents::makes(all, plan::member(instance, "deinterleave_out"@), "deinterleave"@)
            &&& contents::sets(
                all,
                plan::member(instance, "deinterleave_out"@),
                "keep-positions"@,
                SettingInfo::Bool(false),
            )
            &&& forall|i: int|
                0 <= i < layout.inputs.len() ==> #[trigger] has_input(all, instance, i)
            &&& forall|i: int|
                0 <= i < layout.outputs.len() ==> #[trigger] has_output(
                    all,
                    instance,
                    i,
                    layout.outputs[i] as int,
                )
            &&& all.elements.len() == 5 + 3 * layout.outputs.len() + 2 * layout.inputs.len()
            &&& all.links.len() == 4 + 2 * layout.outputs.len() + layout.inputs.len()
        }),
{
    broadcast use contents::what_plans_hold;

    routing::lemma_offset_grows(layout.inputs, 0, 0);
    let inputs = routing::total(layout.inputs);
    let outputs = routing::total(layout.outputs);
    let core = liveaudiorouter::router_core(instance, inputs, outputs, matrix);
    let id = plan::member(instance, "interleave_in"@);
    lemma_input_sinks(liveaudiorouter::interleave(id), inputs as nat);
    assert(has_core(core, instance, layout, matrix));
    let mid = liveaudiorouter::with_output_streams(
        core,
        instance,
        layout.outputs,
        layout.outputs.len(),
    );
    lemma_output_streams(core, instance, layout.outputs, layout.outputs.len());
    let last = liveaudiorouter::deinterleave(plan::member(instance, "deinterleave_out"@));
    let wide = mid.add(last);
    assert(contents::held_too(mid, wide));
    lemma_input_streams(wide, instance, layout.inputs.len());
    let all = liveaudiorouter::router_plan(instance, layout, matrix);
    contents::lemma_held_on(core, mid, wide);
    contents::lemma_held_on(core, wide, all);
    contents::lemma_held_on(mid, wide, all);
    assert(has_core(all, instance, layout, matrix));
    assert forall|i: int| 0 <= i < layout.outputs.len() implies #[trigger] has_output(
        all,
        instance,
        i,
        layout.outputs[i] as int,
    ) by {
        assert(has_output(mid, instance, i, layout.outputs[i] as int));
    }
}

/// A pad is that of the channel whose number stands behind `src_`, and no other pad
/// is that of a channel.
pub proof fn pads_are_numbered_by_channel(channel: nat, name: Seq<char>)
    ensures
        channel <= usize::MAX ==> liveaudiorouter::channel_of_pad("src_"@ + text::decimal(channel))
            == Some(channel),
        !text::has_prefix(name, "src_"@) ==> liveaudiorouter::channel_of_pad(name) is None,
{
    let whole = "src_"@ + text::decimal(channel);
    assert(whole.subrange(0, "src_"@.len() as int) =~= "src_"@);
    assert(whole.skip("src_"@.len() as int) =~= text::decimal(channel));
    if channel <= usize::MAX {
        text::parse_reads_decimal(channel, usize::MAX as nat);
    }
}

/// A channel of an input stream enters the matrix at its own place: it goes through
/// a queue of that number into the pad of that number. A channel that its stream
/// is not to have goes nowhere.
pub proof fn input_channels_enter_at_their_place(
    instance: Seq<char>,
    inputs: Seq<usize>,
    spot: Spot,
)
    requires
        0 <= spot.0 < inputs.len(),
        0 <= spot.1 <= usize::MAX,
    ensures
        ({
            let pad = "src_"@ + text::decimal(spot.1 as nat);
            let link = liveaudiorouter::input_link(instance, pad, inputs, spot.0);
            &&& link is Some <==> spot.1 < inputs[spot.0]
            &&& link is Some ==> ({
                let at = routing::place(inputs, spot)->0;
                &&& link->0.sink_name == "sink_"@ + text::decimal(at as nat)
                &&& link->0.queue_id == plan::member(
                    instance,
                    "queue_in_ch"@ + text::decimal(at as nat),
                )
                &&& link->0.stream is None
            })
        }),
{
    pads_are_numbered_by_channel(spot.1 as nat, ""@);
}

/// A channel leaves the matrix into the stream that it belongs to, at its own place
/// in that stream, through a queue of its number. A channel behind the last one
/// goes nowhere.
pub proof fn output_channels_leave_into_their_stream(
    instance: Seq<char>,
    outputs: Seq<usize>,
    spot: Spot,
    behind: nat,
)
    requires
        routing::place(outputs, spot) is Some,
        routing::total(outputs) <= usize::MAX,
        routing::total(outputs) <= behind <= usize::MAX,
    ensures
        ({
            let at = routing::place(outputs, spot)->0 as nat;
            let link = liveaudiorouter::output_link(
                instance,
                "src_"@ + text::decimal(at),
                outputs,
            );
            &&& link is Some
            &&& link->0.stream == Some(spot.0)
            &&& link->0.sink_name == "sink_"@ + text::decimal(spot.1 as nat)
            &&& link->0.queue_id == plan::member(instance, "queue_out_ch"@ + text::decimal(at))
        }),
        liveaudiorouter::output_link(instance, "src_"@ + text::decimal(behind), outputs) is None,
{
    let at = routing::place(outputs, spot)->0;
    routing::places_are_inside(outputs, spot);
    routing::stream_of_a_place(outputs, spot);
    pads_are_numbered_by_channel(at as nat, ""@);
    pads_are_numbered_by_channel(behind, ""@);
    if let Some(stream) = routing::stream_at(outputs, behind as int) {
        routing::stream_holds_its_places(outputs, behind as int);
        routing::lemma_offset_step(outputs, stream);
        routing::lemma_offset_grows(outputs, stream + 1, outputs.len() as int);
    }
}

broadcast proof fn lemma_channels_offered(
    d: DefinitionInfo,
    side: Seq<char>,
    title: Seq<char>,
    n: nat,
)
    ensures
        ({
            let all = #[trigger] liveaudiorouter::with_channels(d, side, title, n);
            &&& all.exposed_properties.len() == d.exposed_properties.len() + n
            &&& all.id == d.id
            &&& all.external_pads == d.external_pads
            &&& forall|i: int|
                0 <= i < n ==> #[trigger] all.exposed_properties[d.exposed_properties.len() + i]
                    == liveaudiorouter::channels_info(side, title, i)
            &&& forall|i: int|
                0 <= i < d.exposed_properties.len() ==> #[trigger] all.exposed_properties[i]
                    == d.exposed_properties[i]
        }),
    decreases n,
{
    if n > 0 {
        lemma_channels_offered(d, side, title, (n - 1) as nat);
    }
}

/// What a router does where nothing is set is what it offers as the default: two
/// streams of two channels on either side, and no routes. The routes can change
/// while it runs.
pub proof fn router_defaults_are_what_is_done(p: PropertyMap, i: int)
    requires
        p.len() == 0,
        0 <= i < 8,
    ensures
        ({
            let d = liveaudiorouter::router_definition();
            let two = Some(PropertyTree::UInt(2));
            &&& d.id == "builtin.liveaudiorouter"@
            &&& d.exposed_properties.len() == 19
            &&& d.external_pads == liveaudiorouter::stream_pads(
                routing::layout_of(p).inputs.len(),
                routing::layout_of(p).outputs.len(),
            )
            &&& contents::offers(d, "num_inputs"@, two, "_block"@, "num_inputs"@, false)
            &&& contents::offers(d, "num_outputs"@, two, "_block"@, "num_outputs"@, false)
            &&& contents::offers(
                d,
                "input_"@ + text::decimal(i as nat) + "_channels"@,
                two,
                "_block"@,
                "input_"@ + text::decimal(i as nat) + "_channels"@,
                false,
            )
            &&& contents::offers(
                d,
                "output_"@ + text::decimal(i as nat) + "_channels"@,
                two,
                "_block"@,
                "output_"@ + text::decimal(i as nat) + "_channels"@,
                false,
            )
            &&& contents::offers(
                d,
                "routing_matrix"@,
                Some(PropertyTree::Text("{}"@)),
                "matrix"@,
                "routing_matrix"@,
                true,
            )
        }),
        routing::layout_of(p).inputs =~= seq![2usize, 2usize],
        routing::layout_of(p).outputs =~= seq![2usize, 2usize],
        routing::routes_asked(p).len() == 0,
{
    let d = liveaudiorouter::router_definition();
    let all = d.exposed_properties;
    lemma_router_properties(i);
    lemma_name_of_input(i);
    lemma_name_of_output(i);
    assert(all[0].name == "num_inputs"@);
    assert(all[1].name == "num_outputs"@);
    assert(all[2 + i] == liveaudiorouter::channels_info("input"@, "Input"@, i));
    assert(all[10 + i] == liveaudiorouter::channels_info("output"@, "Output"@, i));
    assert(all[18].name == "routing_matrix"@);
    assert(forall|name: Seq<char>| #[trigger] text::lookup(p, name) is None);
}

proof fn lemma_router_properties(i: int)
    requires
        0 <= i < 8,
    ensures
        ({
            let d = liveaudiorouter::router_definition();
            let all = d.exposed_properties;
            &&& d.id == "builtin.liveaudiorouter"@
            &&& d.external_pads == liveaudiorouter::stream_pads(2, 2)
            &&& all.len() == 19
            &&& all[2 + i] == liveaudiorouter::channels_info("input"@, "Input"@, i)
            &&& all[10 + i] == liveaudiorouter::channels_info("output"@, "Output"@, i)
            &&& contents::is_property(
                all[0],
                "num_inputs"@,
                Some(PropertyTree::UInt(2)),
                "_block"@,
                "num_inputs"@,
                false,
            )
            &&& contents::is_property(
                all[1],
                "num_outputs"@,
                Some(PropertyTree::UInt(2)),
                "_block"@,
                "num_outputs"@,
                false,
            )
            &&& contents::is_property(
                all[18],
                "routing_matrix"@,
                Some(PropertyTree::Text("{}"@)),
                "matrix"@,
                "routing_matrix"@,
                true,
            )
        }),
{
    broadcast use lemma_channels_offered;

    let all = liveaudiorouter::router_definition().exposed_properties;
    assert(all.len() == 19);
}

} // verus!
