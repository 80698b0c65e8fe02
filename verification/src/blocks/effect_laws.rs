//! Laws on the smaller blocks and helpers: time offsets, deinterlacing, solo
//! properties and the reasons why a stream is refused.

use crate::blocks::contents;
use crate::blocks::decode_chain;
use crate::blocks::definition::MediaType;
use crate::blocks::mixer;
use crate::blocks::plan;
use crate::blocks::plan::SettingInfo;
use crate::blocks::refusal;
use crate::blocks::time_offset;
use crate::blocks::time_offset::Milliseconds;
use crate::properties::{PropertyMap, PropertyTree};
use crate::text;
use vstd::prelude::*;

verus! {

/// An offset is taken as it is set, in whichever of the two forms, and is nothing
/// where no number is set.
pub proof fn offsets_are_taken_as_set(p: PropertyMap, n: i64, bits: u64)
    ensures
        text::lookup(p, "offset_ms"@) == Some(PropertyTree::Int(n)) ==> time_offset::offset_under(p)
            == Milliseconds::Whole(n),
        text::lookup(p, "offset_ms"@) == Some(PropertyTree::Float(bits))
            ==> time_offset::offset_under(p) == Milliseconds::Fraction(bits),
        !(text::lookup(p, "offset_ms"@) matches Some(PropertyTree::Int(_))) && !(text::lookup(
            p,
            "offset_ms"@,
        ) matches Some(PropertyTree::Float(_))) ==> time_offset::offset_under(p)
            == Milliseconds::Fraction(0),
{
}

pub open spec fn as_text(t: Seq<char>) -> PropertyTree {
    PropertyTree::Text(t)
}

pub open spec fn as_bool(b: bool) -> PropertyTree {
    PropertyTree::Bool(b)
}

/// A change on a running flow is that of an offset where the property is the one
/// that holds it and the element is one of a time offset block, however the block
/// is called; a number is then taken as it is when the block is built.
pub proof fn changed_offsets_are_those_of_offset_blocks(instance: Seq<char>, name: Seq<char>, id: Seq<char>, n: i64, bits: u64)
    ensures
        time_offset::is_offset(instance + ":offset_identity"@, name) <==> name == "offset_ms"@,
        time_offset::is_offset(id, name) ==> id.len() >= 16 && id.skip(id.len() - 16)
            == ":offset_identity"@,
        time_offset::milliseconds_in(PropertyTree::Int(n)) == Some(Milliseconds::Whole(n)),
        time_offset::milliseconds_in(PropertyTree::Float(bits)) == Some(
            Milliseconds::Fraction(bits),
        ),
        forall|t: Seq<char>|
            time_offset::milliseconds_in(#[trigger] as_text(t)) is None,
        forall|b: bool| time_offset::milliseconds_in(#[trigger] as_bool(b)) is None,
{
    reveal_strlit(":offset_identity");
    let tail = ":offset_identity"@;
    let whole = instance + tail;
    assert(whole.subrange(whole.len() - tail.len(), whole.len() as int) =~= tail);
    if time_offset::is_offset(id, name) {
        assert(id.skip(id.len() - 16) =~= id.subrange(id.len() - 16, id.len() as int));
    }
}

/// What enters the block leaves it through one element, whose offset can change
/// while it runs.
pub proof fn offset_block_is_one_element(instance: Seq<char>)
    ensures
        contents::makes(time_offset::offset_plan(instance), plan::member(instance, "offset_identity"@), "identity"@),
        contents::sets(
            time_offset::offset_plan(instance),
            plan::member(instance, "offset_identity"@),
            "silent"@,
            SettingInfo::Bool(true),
        ),
        time_offset::offset_plan(instance).elements.len() == 1,
        time_offset::offset_plan(instance).links.len() == 0,
        time_offset::offset_definition().id == "builtin.time_offset"@,
        time_offset::offset_definition().exposed_properties.len() == 1,
        contents::offers(
            time_offset::offset_definition(),
            "offset_ms"@,
            Some(PropertyTree::Float(0)),
            "offset_identity"@,
            "offset_ms"@,
            true,
        ),
        time_offset::offset_definition().external_pads.inputs.len() == 1,
        time_offset::offset_definition().external_pads.outputs.len() == 1,
        contents::shows(
            time_offset::offset_definition().external_pads.inputs,
            "in"@,
            MediaType::Generic,
            "offset_identity"@,
            "sink"@,
        ),
        contents::shows(
            time_offset::offset_definition().external_pads.outputs,
            "out"@,
            MediaType::Generic,
            "offset_identity"@,
            "src"@,
        ),
{
    broadcast use {contents::what_plans_hold, contents::what_definitions_offer};

    assert(time_offset::offset_definition().external_pads.inputs[0].name == "in"@);
    assert(time_offset::offset_definition().external_pads.outputs[0].name == "out"@);
}

/// What a pad delivers is deinterlaced on its way to the output of the block, by an
/// element of that pad alone.
pub proof fn decoded_video_is_deinterlaced(instance: Seq<char>, pad_label: Seq<char>, other: Seq<char>, output: Seq<char>)
    ensures
        contents::makes(
            decode_chain::deinterlace_plan(instance, pad_label, output),
            instance + ":"@ + ("deinterlace_"@ + pad_label),
            "deinterlace"@,
        ),
        contents::sets(
            decode_chain::deinterlace_plan(instance, pad_label, output),
            instance + ":"@ + ("deinterlace_"@ + pad_label),
            "mode"@,
            SettingInfo::Parsed("auto"@),
        ),
        contents::joins(
            decode_chain::deinterlace_plan(instance, pad_label, output),
            instance + ":"@ + ("deinterlace_"@ + pad_label),
            "src"@,
            output,
            "sink"@,
        ),
        decode_chain::deinterlace_plan(instance, pad_label, output).elements.len() == 1,
        decode_chain::deinterlace_plan(instance, pad_label, output).links.len() == 1,
        decode_chain::deinterlacer(instance, pad_label) == decode_chain::deinterlacer(
            instance,
            other,
        ) <==> pad_label == other,
{
    broadcast use contents::what_plans_hold;

    if decode_chain::deinterlacer(instance, pad_label) == decode_chain::deinterlacer(
        instance,
        other,
    ) {
        plan::member_is_injective(instance, "deinterlace_"@ + pad_label, "deinterlace_"@ + other);
        let head = "deinterlace_"@;
        assert(pad_label =~= (head + pad_label).skip(head.len() as int));
        assert(other =~= (head + other).skip(head.len() as int));
    }
}

/// A source is interlaced where its frames hold both fields, always or at times.
pub proof fn interlaced_sources_are_known_by_their_mode(mode: Seq<char>)
    ensures
        decode_chain::is_interlaced(Some(mode)) <==> mode == "interleaved"@ || mode == "mixed"@,
        !decode_chain::is_interlaced(None),
{
}

/// A name leads to a channel only where it is that of a solo property: it begins
/// with `ch`, ends with one of two suffixes, and has a number above zero between.
pub proof fn only_solo_names_lead_to_channels(name: Seq<char>)
    ensures
        mixer::solo_channel(name) matches Some(n) ==> 1 <= n <= usize::MAX && text::has_prefix(
            name,
            "ch"@,
        ) && (text::has_suffix(name, "_pfl"@) || text::has_suffix(name, "_afl"@)),
{
    reveal_strlit("_pfl");
    reveal_strlit("_afl");
    reveal_strlit("ch");
    if let Some(n) = mixer::solo_channel(name) {
        let owner = mixer::solo_owner(name)->0;
        assert(name.subrange(0, 2) =~= owner.subrange(0, 2));
    }
}

/// Each channel has two solo properties, which lead to it and to no other.
pub proof fn channels_are_found_by_either_solo(channel: nat)
    requires
        channel <= usize::MAX,
    ensures
        channel >= 1 ==> mixer::solo_channel("ch"@ + text::decimal(channel) + "_pfl"@) == Some(
            channel,
        ),
        channel >= 1 ==> mixer::solo_channel("ch"@ + text::decimal(channel) + "_afl"@) == Some(
            channel,
        ),
{
    mixer::solo_names_lead_to_their_channel(channel);
}

/// A refusal names the block, what it accepts and the encoder that helps: one to
/// place before it for raw media, or one whose codec to change.
pub proof fn refusals_name_what_helps(block: Seq<char>, accepts: Seq<char>, caps_name: Seq<char>)
    ensures
        caps_name == "video/x-raw"@ ==> refusal::video_reason(block, accepts, caps_name) == block
            + " needs "@ + accepts + " "@ + "video"@ + ", but its "@ + "video"@
            + " input is raw. Place a "@ + "builtin.videoenc"@
            + " block before it and link its encoded_out pad"@,
        caps_name != "video/x-raw"@ ==> refusal::video_reason(block, accepts, caps_name) == block
            + " needs "@ + accepts + " "@ + "video"@ + ", but its "@ + "video"@
            + " input carries "@ + caps_name + ". Set "@ + "builtin.videoenc"@
            + "'s codec to one of those"@,
        caps_name == "audio/x-raw"@ ==> refusal::audio_reason(block, accepts, caps_name) == block
            + " needs "@ + accepts + " "@ + "audio"@ + ", but its "@ + "audio"@
            + " input is raw. Place a "@ + "builtin.audioenc"@
            + " block before it and link its encoded_out pad"@,
        caps_name != "audio/x-raw"@ ==> refusal::audio_reason(block, accepts, caps_name) == block
            + " needs "@ + accepts + " "@ + "audio"@ + ", but its "@ + "audio"@
            + " input carries "@ + caps_name + ". Set "@ + "builtin.audioenc"@
            + "'s codec to one of those"@,
{
}

} // verus!
