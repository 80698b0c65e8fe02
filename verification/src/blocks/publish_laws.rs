//! What is published to an RTMP server: laws on where it goes, on what is made of
//! the inputs, and on what is said where they cannot be published.

use crate::blocks::contents;
use crate::blocks::definition::MediaType;
use crate::blocks::plan;
use crate::blocks::plan::SettingInfo;
use crate::blocks::rtmp;
use crate::blocks::rtmp::{AudioPlan, Chain, InputInfo, Platform, StepInfo};
use crate::properties;
use crate::properties::{PropertyMap, PropertyTree};
use crate::text;
use vstd::prelude::*;

verus! {

/// A programme goes to the place that is set, else to the given one, and is paced
/// by the clock unless that is switched off.
pub proof fn programme_goes_where_it_is_set_to(instance: Seq<char>, p: PropertyMap, default_location: Seq<char>)
    ensures
        contents::makes(rtmp::output_plan(instance, p, default_location), plan::member(instance, "rtmp_sink"@), "rtmp2sink"@),
        contents::sets(
            rtmp::output_plan(instance, p, default_location),
            plan::member(instance, "rtmp_sink"@),
            "location"@,
            SettingInfo::Text(
                match text::lookup(p, "location"@) {
                    Some(PropertyTree::Text(s)) => if text::trimmed(s).len() > 0 {
                        s
                    } else {
                        default_location
                    },
                    _ => default_location,
                },
            ),
        ),
        contents::sets(
            rtmp::output_plan(instance, p, default_location),
            plan::member(instance, "rtmp_sink"@),
            "sync"@,
            SettingInfo::Bool(text::lookup(p, "sync"@) != Some(PropertyTree::Bool(false))),
        ),
        contents::sets(
            rtmp::output_plan(instance, p, default_location),
            plan::member(instance, "rtmp_sink"@),
            "async"@,
            SettingInfo::Bool(false),
        ),
        contents::sets(
            rtmp::output_plan(instance, p, default_location),
            plan::member(instance, "rtmp_sink"@),
            "qos"@,
            SettingInfo::Bool(true),
        ),
        contents::makes(rtmp::output_plan(instance, p, default_location), plan::member(instance, "rtmp_flvmux"@), "flvmux"@),
        contents::sets(
            rtmp::output_plan(instance, p, default_location),
            plan::member(instance, "rtmp_flvmux"@),
            "streamable"@,
            SettingInfo::Bool(true),
        ),
        contents::joins(
            rtmp::output_plan(instance, p, default_location),
            plan::member(instance, "rtmp_flvmux"@),
            "src"@,
            plan::member(instance, "rtmp_sink"@),
            "sink"@,
        ),
        contents::makes(rtmp::output_plan(instance, p, default_location), plan::member(instance, "rtmp_video_input"@), "identity"@),
        contents::makes(rtmp::output_plan(instance, p, default_location), plan::member(instance, "rtmp_audio_input"@), "identity"@),
        rtmp::output_plan(instance, p, default_location).elements.len() == 4,
        rtmp::output_plan(instance, p, default_location).links.len() == 1,
{
    broadcast use contents::what_plans_hold;

}

/// Video is parsed on its way from its input to the pad that is reserved for it,
/// and carries its parameters on every key frame.
pub proof fn video_reaches_its_pad(instance: Seq<char>, pad: Seq<char>)
    ensures
        contents::makes(rtmp::chain_plan(instance, Chain::Video, pad), plan::member(instance, "rtmp_h264parse"@), "h264parse"@),
        contents::sets(
            rtmp::chain_plan(instance, Chain::Video, pad),
            plan::member(instance, "rtmp_h264parse"@),
            "config-interval"@,
            SettingInfo::I32(-1i32 as i32),
        ),
        contents::joins(
            rtmp::chain_plan(instance, Chain::Video, pad),
            plan::member(instance, "rtmp_video_input"@),
            "src"@,
            plan::member(instance, "rtmp_h264parse"@),
            "sink"@,
        ),
        contents::joins(
            rtmp::chain_plan(instance, Chain::Video, pad),
            plan::member(instance, "rtmp_h264parse"@),
            "src"@,
            plan::member(instance, "rtmp_flvmux"@),
            pad,
        ),
        rtmp::chain_plan(instance, Chain::Video, pad).elements.len() == 1,
        rtmp::chain_plan(instance, Chain::Video, pad).links.len() == 2,
{
    broadcast use contents::what_plans_hold;

}

/// Raw audio is converted, resampled and encoded before it is parsed and reaches
/// the pad that is reserved for it.
pub proof fn raw_audio_is_encoded(instance: Seq<char>, pad: Seq<char>)
    ensures
        contents::makes(rtmp::chain_plan(instance, Chain::RawAudio, pad), plan::member(instance, "rtmp_audio_convert"@), "audioconvert"@),
        contents::makes(rtmp::chain_plan(instance, Chain::RawAudio, pad), plan::member(instance, "rtmp_audio_resample"@), "audioresample"@),
        contents::makes(rtmp::chain_plan(instance, Chain::RawAudio, pad), plan::member(instance, "rtmp_audio_encoder"@), "avenc_aac"@),
        contents::makes(rtmp::chain_plan(instance, Chain::RawAudio, pad), plan::member(instance, "rtmp_aacparse"@), "aacparse"@),
        contents::joins(
            rtmp::chain_plan(instance, Chain::RawAudio, pad),
            plan::member(instance, "rtmp_audio_input"@),
            "src"@,
            plan::member(instance, "rtmp_audio_convert"@),
            "sink"@,
        ),
        contents::joins(
            rtmp::chain_plan(instance, Chain::RawAudio, pad),
            plan::member(instance, "rtmp_audio_convert"@),
            "src"@,
            plan::member(instance, "rtmp_audio_resample"@),
            "sink"@,
        ),
        contents::joins(
            rtmp::chain_plan(instance, Chain::RawAudio, pad),
            plan::member(instance, "rtmp_audio_resample"@),
            "src"@,
            plan::member(instance, "rtmp_audio_encoder"@),
            "sink"@,
        ),
        contents::joins(
            rtmp::chain_plan(instance, Chain::RawAudio, pad),
            plan::member(instance, "rtmp_audio_encoder"@),
            "src"@,
            plan::member(instance, "rtmp_aacparse"@),
            "sink"@,
        ),
        contents::joins(
            rtmp::chain_plan(instance, Chain::RawAudio, pad),
            plan::member(instance, "rtmp_aacparse"@),
            "src"@,
            plan::member(instance, "rtmp_flvmux"@),
            pad,
        ),
        rtmp::chain_plan(instance, Chain::RawAudio, pad).elements.len() == 4,
        rtmp::chain_plan(instance, Chain::RawAudio, pad).links.len() == 5,
{
    broadcast use contents::what_plans_hold;

}

/// Audio that is encoded already is only parsed.
pub proof fn encoded_audio_is_passed_on(instance: Seq<char>, pad: Seq<char>)
    ensures
        contents::makes(rtmp::chain_plan(instance, Chain::AacAudio, pad), plan::member(instance, "rtmp_aacparse"@), "aacparse"@),
        contents::joins(
            rtmp::chain_plan(instance, Chain::AacAudio, pad),
            plan::member(instance, "rtmp_audio_input"@),
            "src"@,
            plan::member(instance, "rtmp_aacparse"@),
            "sink"@,
        ),
        contents::joins(
            rtmp::chain_plan(instance, Chain::AacAudio, pad),
            plan::member(instance, "rtmp_aacparse"@),
            "src"@,
            plan::member(instance, "rtmp_flvmux"@),
            pad,
        ),
        rtmp::chain_plan(instance, Chain::AacAudio, pad).elements.len() == 1,
        rtmp::chain_plan(instance, Chain::AacAudio, pad).links.len() == 2,
{
    broadcast use contents::what_plans_hold;

}

/// Only H.264 is published as video. Other video is named in what is said of it,
/// unless it is raw.
pub proof fn only_h264_is_published(caps_name: Seq<char>)
    ensures
        rtmp::video_refusal(caps_name) is None <==> caps_name == "video/x-h264"@,
        rtmp::video_chain_for(caps_name) == (if caps_name == "video/x-h264"@ {
            Ok(Chain::Video)
        } else {
            Err(rtmp::video_refusal(caps_name)->0)
        }),
        caps_name != "video/x-h264"@ && caps_name != "video/x-raw"@ ==> rtmp::video_refusal(
            caps_name,
        ) == Some(
            "RTMP Output needs H.264 video, but its video input carries "@ + caps_name
                + ". FLV cannot carry that codec"@,
        ),
        rtmp::video_refusal("video/x-raw"@) == Some(
            "RTMP Output needs H.264 video, but its video input is raw. Place a builtin.videoenc block before it and link its encoded_out pad"@,
        ),
{
    reveal_strlit("video/x-h264");
    reveal_strlit("video/x-raw");
    assert("video/x-h264"@.len() == 12 && "video/x-raw"@.len() == 11);
}

/// Raw audio is encoded, AAC is passed on and nothing else is published. Where the
/// capabilities do not say which MPEG audio it is, it is taken to be AAC.
pub proof fn only_raw_audio_and_aac_are_published(caps_name: Seq<char>, mpegversion: Option<i32>, layer: Option<i32>)
    ensures
        rtmp::audio_chain_for(caps_name, mpegversion, layer) == Ok::<Chain, Seq<char>>(
            Chain::RawAudio,
        ) <==> caps_name == "audio/x-raw"@,
        rtmp::audio_chain_for(caps_name, mpegversion, layer) == Ok::<Chain, Seq<char>>(
            Chain::AacAudio,
        ) <==> caps_name == "audio/mpeg"@ && (mpegversion is None || mpegversion->0 == 2
            || mpegversion->0 == 4),
        rtmp::audio_chain_for(caps_name, mpegversion, layer) != Ok::<Chain, Seq<char>>(
            Chain::Video,
        ),
{
    reveal_strlit("audio/x-raw");
    reveal_strlit("audio/mpeg");
    assert("audio/x-raw"@.len() == 11 && "audio/mpeg"@.len() == 10);
}

/// Audio that is not published is named in what is said of it: MP3 as such, other
/// MPEG audio by its version and layer, and everything else as it is called.
pub proof fn refused_audio_is_named(caps_name: Seq<char>, mpegversion: i32, layer: i32)
    ensures
        rtmp::audio_decision(caps_name, mpegversion, layer) == Err::<AudioPlan, Seq<char>>(
            "RTMP Output needs AAC or raw audio, but its audio input carries MP3. FLV can carry MP3 and this block does not implement that path"@,
        ) || !(caps_name == "audio/mpeg"@ && mpegversion == 1 && layer == 3),
        caps_name == "audio/mpeg"@ && mpegversion != 2 && mpegversion != 4 && !(mpegversion == 1
            && layer == 3) ==> rtmp::audio_decision(caps_name, mpegversion, layer) == Err::<
            AudioPlan,
            Seq<char>,
        >(
            "RTMP Output needs AAC or raw audio, but its audio input carries MPEG-"@
                + text::decimal_int(mpegversion as int) + " audio layer "@
                + text::decimal_int(layer as int) + ", which FLV cannot carry"@,
        ),
        caps_name != "audio/mpeg"@ && caps_name != "audio/x-raw"@ ==> rtmp::audio_decision(
            caps_name,
            mpegversion,
            layer,
        ) == Err::<AudioPlan, Seq<char>>(
            "RTMP Output needs AAC or raw audio, but its audio input carries "@ + caps_name,
        ),
{
    reveal_strlit("audio/x-raw");
    reveal_strlit("audio/mpeg");
    assert("audio/x-raw"@.len() == 11 && "audio/mpeg"@.len() == 10);
}

/// An input without a reserved pad is left alone, whatever it carries.
pub proof fn unconnected_inputs_are_left_alone(input: InputInfo, decision: Result<Chain, Seq<char>>)
    requires
        input.reserved is None,
    ensures
        rtmp::step_for(input, decision) == StepInfo::Leave,
{
}

/// What is said where the element that publishes is missing ends with what to
/// install, and names the element.
pub proof fn missing_sink_is_named(platform: Platform)
    ensures
        text::has_prefix(
            rtmp::missing_message(platform),
            "RTMP Output needs the GStreamer "@ + "rtmp2sink"@ + " element"@,
        ),
        text::has_suffix(rtmp::missing_message(platform), rtmp::package_hint(platform)),
        rtmp::package_hint(Platform::MacOs) == "brew install gst-plugins-bad"@,
        rtmp::package_hint(Platform::Windows)
            == "the GStreamer MSI installer's full package set"@,
        text::has_prefix(
            rtmp::package_hint(Platform::Other),
            "gstreamer1.0-plugins-bad (Debian/Ubuntu)"@,
        ),
{
    reveal_strlit(" element, which this installation does not have. Install it with: ");
    reveal_strlit(" element");
    reveal_strlit(
        "gstreamer1.0-plugins-bad (Debian/Ubuntu), gstreamer1-plugins-bad-free (Fedora) or gst-plugins-bad (Arch)",
    );
    reveal_strlit("gstreamer1.0-plugins-bad (Debian/Ubuntu)");
    let head = "RTMP Output needs the GStreamer "@ + "rtmp2sink"@ + " element"@;
    let whole = rtmp::missing_message(platform);
    assert(whole.subrange(0, head.len() as int) =~= head);
    let hint = rtmp::package_hint(platform);
    assert(whole.subrange(whole.len() - hint.len(), whole.len() as int) =~= hint);
    let other = rtmp::package_hint(Platform::Other);
    let first = "gstreamer1.0-plugins-bad (Debian/Ubuntu)"@;
    assert(other.subrange(0, first.len() as int) =~= first);
}

/// What the block does where nothing is set is what it offers as the default. Each
/// input is that of its medium.
pub proof fn publishing_defaults_are_what_is_done(p: PropertyMap, default_location: Seq<char>)
    requires
        p.len() == 0,
    ensures
        rtmp::output_definition(default_location).id == "builtin.rtmp_output"@,
        rtmp::output_definition(default_location).exposed_properties.len() == 2,
        contents::offers(
            rtmp::output_definition(default_location),
            "location"@,
            Some(PropertyTree::Text(properties::filled_text_or(p, "location"@, default_location))),
            "rtmp_sink"@,
            "location"@,
            false,
        ),
        contents::offers(
            rtmp::output_definition(default_location),
            "sync"@,
            Some(PropertyTree::Bool(true)),
            "rtmp_sink"@,
            "sync"@,
            false,
        ),
        rtmp::output_definition(default_location).external_pads.inputs.len() == 2,
        rtmp::output_definition(default_location).external_pads.outputs.len() == 0,
        contents::shows(
            rtmp::output_definition(default_location).external_pads.inputs,
            "video_in"@,
            MediaType::Video,
            "rtmp_video_input"@,
            "sink"@,
        ),
        contents::shows(
            rtmp::output_definition(default_location).external_pads.inputs,
            "audio_in"@,
            MediaType::Audio,
            "rtmp_audio_input"@,
            "sink"@,
        ),
{
    broadcast use contents::what_definitions_offer;

    assert(text::lookup(p, "location"@) is None);
    let pads = rtmp::output_definition(default_location).external_pads.inputs;
    assert(pads[0].name == "video_in"@ && pads[1].name == "audio_in"@);
}

/// MPEG audio that is not said to be of a version is taken for version four, and
/// for the third layer where it is not said to be of one.
pub proof fn unsaid_audio_is_the_usual(caps_name: Seq<char>, mpegversion: Option<i32>, layer: Option<i32>)
    ensures
        rtmp::audio_chain_for(caps_name, None, layer) == rtmp::audio_chain_for(
            caps_name,
            Some(4i32),
            layer,
        ),
        rtmp::audio_chain_for(caps_name, mpegversion, None) == rtmp::audio_chain_for(
            caps_name,
            mpegversion,
            Some(3i32),
        ),
        mpegversion matches Some(v) ==> (layer matches Some(l) ==> ((rtmp::audio_chain_for(
            caps_name,
            mpegversion,
            layer,
        ) matches Err(reason) ==> rtmp::audio_decision(caps_name, v, l) == Err::<
            AudioPlan,
            Seq<char>,
        >(reason)))),
{
}

} // verus!
