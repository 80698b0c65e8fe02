//! What the properties of the audio bridge do: laws on the channel that joins an
//! output and an input, and on the latencies.

use crate::blocks::audio_bridge;
use crate::blocks::audio_bridge::{BridgeLimits, Number};
use crate::blocks::contents;
use crate::blocks::definition::MediaType;
use crate::blocks::plan;
use crate::blocks::plan::{BuildErrorInfo, CapsInfo, SettingInfo};
use crate::properties::{PropertyMap, PropertyTree};
use crate::text;
use vstd::prelude::*;

verus! {

/// A block is on the channel that is named, less the space around the name, and
/// cannot be built where none is named.
pub proof fn blocks_are_on_the_named_channel(p: PropertyMap)
    ensures
        text::lookup(p, "channel"@) matches Some(PropertyTree::Text(s)) ==> (text::trimmed(s).len()
            > 0 ==> audio_bridge::channel_under(p) == Ok::<Seq<char>, BuildErrorInfo>(
            text::trimmed(s),
        )),
        text::lookup(p, "channel"@) matches Some(PropertyTree::Text(s)) ==> (text::trimmed(s).len()
            == 0 ==> audio_bridge::channel_under(p) is Err),
        !(text::lookup(p, "channel"@) matches Some(PropertyTree::Text(_)))
            ==> audio_bridge::channel_under(p) is Err,
        audio_bridge::channel_under(p) matches Err(e) ==> e
            == BuildErrorInfo::InvalidConfiguration("channel name is required"@),
{
}

/// An output and an input on one channel name the same one, so that the one is
/// heard at the other. What goes out is brought into the format that is carried.
pub proof fn output_and_input_share_a_channel(
    instance: Seq<char>,
    channel: Seq<char>,
    caps: CapsInfo,
    p: PropertyMap,
    max_rate: u64,
    limits: BridgeLimits,
)
    ensures
        contents::makes(audio_bridge::output_plan(instance, channel, caps), plan::member(instance, "sink"@), "stromaudiobridgesink"@),
        contents::sets(
            audio_bridge::output_plan(instance, channel, caps),
            plan::member(instance, "sink"@),
            "channel"@,
            SettingInfo::Text(channel),
        ),
        contents::makes(audio_bridge::output_plan(instance, channel, caps), plan::member(instance, "caps"@), "capsfilter"@),
        contents::sets(
            audio_bridge::output_plan(instance, channel, caps),
            plan::member(instance, "caps"@),
            "caps"@,
            SettingInfo::Caps(caps),
        ),
        contents::makes(audio_bridge::output_plan(instance, channel, caps), plan::member(instance, "convert"@), "audioconvert"@),
        contents::makes(audio_bridge::output_plan(instance, channel, caps), plan::member(instance, "resample"@), "audioresample"@),
        contents::joins(
            audio_bridge::output_plan(instance, channel, caps),
            plan::member(instance, "convert"@),
            "src"@,
            plan::member(instance, "resample"@),
            "sink"@,
        ),
        contents::joins(
            audio_bridge::output_plan(instance, channel, caps),
            plan::member(instance, "resample"@),
            "src"@,
            plan::member(instance, "caps"@),
            "sink"@,
        ),
        contents::joins(
            audio_bridge::output_plan(instance, channel, caps),
            plan::member(instance, "caps"@),
            "src"@,
            plan::member(instance, "sink"@),
            "sink"@,
        ),
        audio_bridge::output_plan(instance, channel, caps).elements.len() == 4,
        audio_bridge::output_plan(instance, channel, caps).links.len() == 3,
        contents::makes(audio_bridge::input_plan(instance, channel, p, max_rate, limits), plan::member(instance, "bridge"@), "stromaudiobridgesrc"@),
        contents::sets(
            audio_bridge::input_plan(instance, channel, p, max_rate, limits),
            plan::member(instance, "bridge"@),
            "channel"@,
            SettingInfo::Text(channel),
        ),
{
    broadcast use contents::what_plans_hold;

}

/// An input is built with its latencies and the rate change that it may use.
pub proof fn inputs_are_built_with_their_latencies(
    instance: Seq<char>,
    channel: Seq<char>,
    p: PropertyMap,
    max_rate: u64,
    limits: BridgeLimits,
)
    ensures
        contents::sets(
            audio_bridge::input_plan(instance, channel, p, max_rate, limits),
            plan::member(instance, "bridge"@),
            "target-latency"@,
            SettingInfo::U32(audio_bridge::target_latency(p, limits) as u32),
        ),
        contents::sets(
            audio_bridge::input_plan(instance, channel, p, max_rate, limits),
            plan::member(instance, "bridge"@),
            "max-latency"@,
            SettingInfo::U32(audio_bridge::max_latency(p, limits) as u32),
        ),
        contents::sets(
            audio_bridge::input_plan(instance, channel, p, max_rate, limits),
            plan::member(instance, "bridge"@),
            "max-rate-change"@,
            SettingInfo::Float(max_rate),
        ),
        audio_bridge::input_plan(instance, channel, p, max_rate, limits).elements.len() == 1,
        audio_bridge::input_plan(instance, channel, p, max_rate, limits).links.len() == 0,
        audio_bridge::input_plan(instance, channel, p, max_rate, limits).elements[0].settings.len() == 4,
{
    broadcast use contents::what_plans_hold;

}

/// The number set under a name, or `fallback` where none that is not negative is.
pub open spec fn wanted(p: PropertyMap, name: Seq<char>, fallback: u64) -> int {
    match text::lookup(p, name) {
        Some(PropertyTree::UInt(n)) => n as int,
        Some(PropertyTree::Int(n)) => if n >= 0 {
            n as int
        } else {
            fallback as int
        },
        _ => fallback as int,
    }
}

/// `n` is the number nearest to `wanted` between two others.
pub open spec fn nearest(n: int, wanted: int, least: int, most: int) -> bool {
    &&& least <= n <= most
    &&& forall|m: int|
        #![trigger m - wanted]
        least <= m <= most ==> (if n >= wanted {
            n - wanted
        } else {
            wanted - n
        }) <= (if m >= wanted {
            m - wanted
        } else {
            wanted - m
        })
}

/// A latency is the one that can be had nearest to the one that is wanted, so that
/// one in range is taken as it is.
pub proof fn latencies_are_nearest_to_what_is_wanted(p: PropertyMap, limits: BridgeLimits)
    requires
        limits.valid(),
    ensures
        nearest(
            audio_bridge::target_latency(p, limits) as int,
            wanted(p, "target_latency_ms"@, limits.default_target_latency_ms),
            limits.min_target_latency_ms as int,
            limits.max_target_latency_ms as int,
        ),
        nearest(
            audio_bridge::max_latency(p, limits) as int,
            wanted(p, "max_latency_ms"@, limits.default_max_latency_ms),
            limits.min_target_latency_ms as int,
            limits.max_max_latency_ms as int,
        ),
{
}

/// A rate change is taken as it is set, in whichever form.
pub proof fn rate_changes_are_taken_as_set(p: PropertyMap, name: Seq<char>, fallback: u64)
    ensures
        match text::lookup(p, name) {
            Some(PropertyTree::Float(bits)) => audio_bridge::fraction_under(p, name, fallback)
                == Number::Fraction(bits),
            Some(PropertyTree::UInt(n)) => audio_bridge::fraction_under(p, name, fallback)
                == Number::Unsigned(n),
            Some(PropertyTree::Int(n)) => audio_bridge::fraction_under(p, name, fallback)
                == Number::Signed(n),
            _ => audio_bridge::fraction_under(p, name, fallback) == Number::Fraction(fallback),
        },
{
}

/// An input is built where the element that stretches audio is there and a channel
/// is named, and the missing element is told of first.
pub proof fn inputs_need_time_scaling_and_a_channel(
    instance: Seq<char>,
    p: PropertyMap,
    max_rate: u64,
    scaletempo_found: bool,
    limits: BridgeLimits,
)
    ensures
        audio_bridge::input_build(instance, p, max_rate, scaletempo_found, limits) is Ok <==>
            scaletempo_found && audio_bridge::channel_under(p) is Ok,
        !scaletempo_found ==> audio_bridge::input_build(
            instance,
            p,
            max_rate,
            scaletempo_found,
            limits,
        )->Err_0 == BuildErrorInfo::ElementCreation(
            "scaletempo (gst-plugins-good) is not installed"@,
        ),
        scaletempo_found && audio_bridge::channel_under(p) is Ok ==> audio_bridge::input_build(
            instance,
            p,
            max_rate,
            scaletempo_found,
            limits,
        )->Ok_0 == audio_bridge::input_plan(
            instance,
            audio_bridge::channel_under(p)->Ok_0,
            p,
            max_rate,
            limits,
        ),
        scaletempo_found && audio_bridge::channel_under(p) is Err ==> audio_bridge::input_build(
            instance,
            p,
            max_rate,
            scaletempo_found,
            limits,
        )->Err_0 == audio_bridge::channel_under(p)->Err_0,
{
}

/// What the latencies are where nothing is set is what an input offers as the
/// default, and they can change while it runs.
pub proof fn bridge_offers_what_it_does(id: Seq<char>, limits: BridgeLimits)
    ensures
        audio_bridge::input_info(id, limits).id == id,
        audio_bridge::output_info(id).id == id,
        audio_bridge::input_info(id, limits).exposed_properties.len() == 4,
        audio_bridge::output_info(id).exposed_properties.len() == 1,
        contents::offers(
            audio_bridge::output_info(id),
            "channel"@,
            None,
            "_block"@,
            "channel"@,
            false,
        ),
        contents::offers(
            audio_bridge::input_info(id, limits),
            "channel"@,
            None,
            "_block"@,
            "channel"@,
            false,
        ),
        contents::offers(
            audio_bridge::input_info(id, limits),
            "target_latency_ms"@,
            Some(PropertyTree::UInt(limits.default_target_latency_ms)),
            "bridge"@,
            "target-latency"@,
            true,
        ),
        contents::offers(
            audio_bridge::input_info(id, limits),
            "max_rate_change_percent"@,
            Some(PropertyTree::Float(limits.default_rate_change_percent)),
            "bridge"@,
            "max-rate-change"@,
            true,
        ),
        contents::offers(
            audio_bridge::input_info(id, limits),
            "max_latency_ms"@,
            Some(PropertyTree::UInt(limits.default_max_latency_ms)),
            "bridge"@,
            "max-latency"@,
            true,
        ),
        audio_bridge::output_info(id).external_pads.inputs.len() == 1,
        audio_bridge::output_info(id).external_pads.outputs.len() == 0,
        contents::shows(
            audio_bridge::output_info(id).external_pads.inputs,
            "audio_in"@,
            MediaType::Audio,
            "convert"@,
            "sink"@,
        ),
        audio_bridge::input_info(id, limits).external_pads.inputs.len() == 0,
        audio_bridge::input_info(id, limits).external_pads.outputs.len() == 1,
        contents::shows(
            audio_bridge::input_info(id, limits).external_pads.outputs,
            "audio_out"@,
            MediaType::Audio,
            "bridge"@,
            "src"@,
        ),
{
    broadcast use contents::what_definitions_offer;

    assert(audio_bridge::output_info(id).external_pads.inputs[0].name == "audio_in"@);
    assert(audio_bridge::input_info(id, limits).external_pads.outputs[0].name == "audio_out"@);
}

} // verus!
