//! What the properties of the blocks for capture and playback cards do: laws on
//! how the card is chosen and set, and on the media that go through it.

use crate::blocks::contents;
use crate::blocks::decklink;
use crate::blocks::definition::{Choice, MediaType, StreamMode};
use crate::blocks::plan;
use crate::blocks::plan::{CapsFieldInfo, SettingInfo};
use crate::properties;
use crate::properties::{PropertyMap, PropertyTree};
use crate::text;
use vstd::prelude::*;

verus! {

/// A card is chosen by a number that is not negative, else the first one is taken.
/// The id that a card keeps is as it is set, else there is none.
pub proof fn cards_are_chosen_as_set(p: PropertyMap)
    ensures
        match text::lookup(p, "device_number"@) {
            Some(PropertyTree::UInt(n)) => n <= i32::MAX ==> decklink::device_number(p) == n,
            Some(PropertyTree::Int(n)) => 0 <= n <= i32::MAX ==> decklink::device_number(p) == n,
            _ => decklink::device_number(p) == 0,
        },
        text::lookup(p, "device_number"@) matches Some(PropertyTree::Int(n)) && n < 0
            ==> decklink::device_number(p) == 0,
        match text::lookup(p, "persistent_id"@) {
            Some(PropertyTree::Int(n)) => decklink::persistent_id(p) == n,
            Some(PropertyTree::UInt(n)) => n <= i64::MAX ==> decklink::persistent_id(p) == n,
            _ => decklink::persistent_id(p) == -1,
        },
{
}

/// Channels are captured as a text says, or as many as a number above zero says,
/// else two.
pub proof fn channels_are_captured_as_set(p: PropertyMap)
    ensures
        match text::lookup(p, "audio_channels"@) {
            Some(PropertyTree::Text(s)) => decklink::audio_channels(p) == s,
            Some(PropertyTree::UInt(n)) => decklink::audio_channels(p) == text::decimal(n as nat),
            Some(PropertyTree::Int(n)) => decklink::audio_channels(p) == (if n > 0 {
                text::decimal(n as nat)
            } else {
                "2"@
            }),
            _ => decklink::audio_channels(p) == "2"@,
        },
{
}

/// Both media go through a card unless one of them alone is set.
pub proof fn cards_carry_both_media_unless_set_otherwise(p: PropertyMap)
    ensures
        decklink::mode_under(p).video() <==> text::lookup(p, "stream_mode"@) != Some(
            PropertyTree::Text("audio"@),
        ),
        decklink::mode_under(p).audio() <==> text::lookup(p, "stream_mode"@) != Some(
            PropertyTree::Text("video"@),
        ),
{
    reveal_strlit("video");
    reveal_strlit("audio");
    assert("video"@[0] == 'v' && "audio"@[0] == 'a');
}

/// Video is captured from the card that is chosen, as it is set.
pub proof fn video_is_captured_as_set(instance: Seq<char>, p: PropertyMap)
    ensures
        contents::makes(decklink::capture_plan(instance, p), plan::member(instance, "decklinkvideosrc"@), "decklinkvideosrc"@),
        contents::sets(
            decklink::capture_plan(instance, p),
            plan::member(instance, "decklinkvideosrc"@),
            "device-number"@,
            SettingInfo::I32(decklink::device_number(p)),
        ),
        contents::sets(
            decklink::capture_plan(instance, p),
            plan::member(instance, "decklinkvideosrc"@),
            "persistent-id"@,
            SettingInfo::I64(decklink::persistent_id(p)),
        ),
        contents::sets(
            decklink::capture_plan(instance, p),
            plan::member(instance, "decklinkvideosrc"@),
            "mode"@,
            SettingInfo::Parsed(properties::text_or(p, "mode"@, "auto"@)),
        ),
        contents::sets(
            decklink::capture_plan(instance, p),
            plan::member(instance, "decklinkvideosrc"@),
            "connection"@,
            SettingInfo::Parsed(properties::text_or(p, "connection"@, "auto"@)),
        ),
        contents::sets(
            decklink::capture_plan(instance, p),
            plan::member(instance, "decklinkvideosrc"@),
            "video-format"@,
            SettingInfo::Parsed(properties::text_or(p, "video_format"@, "auto"@)),
        ),
        contents::sets(
            decklink::capture_plan(instance, p),
            plan::member(instance, "decklinkvideosrc"@),
            "profile"@,
            SettingInfo::Parsed(properties::text_or(p, "profile"@, "default"@)),
        ),
        contents::sets(
            decklink::capture_plan(instance, p),
            plan::member(instance, "decklinkvideosrc"@),
            "drop-no-signal-frames"@,
            SettingInfo::Bool(properties::bool_or(p, "drop_no_signal_frames"@, false)),
        ),
        contents::sets(
            decklink::capture_plan(instance, p),
            plan::member(instance, "decklinkvideosrc"@),
            "do-timestamp"@,
            SettingInfo::Bool(properties::bool_or(p, "do_timestamp"@, false)),
        ),
        decklink::capture_plan(instance, p).elements[0].settings.len() == 8,
{
    broadcast use contents::what_plans_hold;

}

/// Audio is captured from the card that video is captured from, where it is wanted.
pub proof fn audio_is_captured_as_set(instance: Seq<char>, p: PropertyMap)
    ensures
        decklink::mode_under(p).audio() ==> contents::makes(decklink::capture_plan(instance, p), plan::member(instance, "decklinkaudiosrc"@), "decklinkaudiosrc"@),
        decklink::mode_under(p).audio() ==> contents::sets(
            decklink::capture_plan(instance, p),
            plan::member(instance, "decklinkaudiosrc"@),
            "device-number"@,
            SettingInfo::I32(decklink::device_number(p)),
        ),
        decklink::mode_under(p).audio() ==> contents::sets(
            decklink::capture_plan(instance, p),
            plan::member(instance, "decklinkaudiosrc"@),
            "persistent-id"@,
            SettingInfo::I64(decklink::persistent_id(p)),
        ),
        decklink::mode_under(p).audio() ==> contents::sets(
            decklink::capture_plan(instance, p),
            plan::member(instance, "decklinkaudiosrc"@),
            "connection"@,
            SettingInfo::Parsed(properties::text_or(p, "audio_connection"@, "auto"@)),
        ),
        decklink::mode_under(p).audio() ==> contents::sets(
            decklink::capture_plan(instance, p),
            plan::member(instance, "decklinkaudiosrc"@),
            "channels"@,
            SettingInfo::Parsed(decklink::audio_channels(p)),
        ),
        decklink::mode_under(p).audio() ==> contents::sets(
            decklink::capture_plan(instance, p),
            plan::member(instance, "decklinkaudiosrc"@),
            "do-timestamp"@,
            SettingInfo::Bool(properties::bool_or(p, "do_timestamp"@, false)),
        ),
        decklink::capture_plan(instance, p).elements.len() == (match decklink::mode_under(p) {
            StreamMode::AudioVideo => 2nat,
            StreamMode::Video => 1,
            StreamMode::Audio => 3,
        }),
{
    broadcast use contents::what_plans_hold;

}

/// Video that is not wanted is captured all the same, and thrown away.
pub proof fn unwanted_video_is_thrown_away(instance: Seq<char>, p: PropertyMap)
    ensures
        !decklink::mode_under(p).video() ==> contents::makes(decklink::capture_plan(instance, p), plan::member(instance, "video_drain"@), "fakesink"@),
        !decklink::mode_under(p).video() ==> contents::sets(
            decklink::capture_plan(instance, p),
            plan::member(instance, "video_drain"@),
            "sync"@,
            SettingInfo::Bool(false),
        ),
        !decklink::mode_under(p).video() ==> contents::sets(
            decklink::capture_plan(instance, p),
            plan::member(instance, "video_drain"@),
            "async"@,
            SettingInfo::Bool(false),
        ),
        !decklink::mode_under(p).video() ==> contents::sets(
            decklink::capture_plan(instance, p),
            plan::member(instance, "video_drain"@),
            "silent"@,
            SettingInfo::Bool(true),
        ),
        !decklink::mode_under(p).video() ==> contents::joins(
            decklink::capture_plan(instance, p),
            plan::member(instance, "decklinkvideosrc"@),
            "src"@,
            plan::member(instance, "video_drain"@),
            "sink"@,
        ),
        decklink::capture_plan(instance, p).links.len() == (if decklink::mode_under(p).video() {
            0nat
        } else {
            1
        }),
{
    broadcast use contents::what_plans_hold;

}

/// Both media are played on the card that is chosen. Where only audio is played,
/// what is set for video does not count.
pub proof fn media_are_played_as_set(instance: Seq<char>, p: PropertyMap)
    ensures
        contents::makes(decklink::playback_plan(instance, p), plan::member(instance, "decklinkvideosink"@), "decklinkvideosink"@),
        contents::sets(
            decklink::playback_plan(instance, p),
            plan::member(instance, "decklinkvideosink"@),
            "device-number"@,
            SettingInfo::I32(decklink::device_number(p)),
        ),
        decklink::mode_under(p).video() ==> contents::sets(
            decklink::playback_plan(instance, p),
            plan::member(instance, "decklinkvideosink"@),
            "mode"@,
            SettingInfo::Parsed(properties::text_or(p, "mode"@, "1080p25"@)),
        ),
        decklink::mode_under(p).video() ==> contents::sets(
            decklink::playback_plan(instance, p),
            plan::member(instance, "decklinkvideosink"@),
            "video-format"@,
            SettingInfo::Parsed(properties::text_or(p, "video_format"@, "8bit-yuv"@)),
        ),
        !decklink::mode_under(p).video() ==> contents::sets(
            decklink::playback_plan(instance, p),
            plan::member(instance, "decklinkvideosink"@),
            "mode"@,
            SettingInfo::Parsed("1080p25"@),
        ),
        !decklink::mode_under(p).video() ==> contents::sets(
            decklink::playback_plan(instance, p),
            plan::member(instance, "decklinkvideosink"@),
            "video-format"@,
            SettingInfo::Parsed("8bit-yuv"@),
        ),
        decklink::mode_under(p).audio() ==> contents::makes(decklink::playback_plan(instance, p), plan::member(instance, "decklinkaudiosink"@), "decklinkaudiosink"@),
        decklink::mode_under(p).audio() ==> contents::sets(
            decklink::playback_plan(instance, p),
            plan::member(instance, "decklinkaudiosink"@),
            "device-number"@,
            SettingInfo::I32(decklink::device_number(p)),
        ),
        decklink::playback_plan(instance, p).elements[0].settings.len() == 3,
        decklink::playback_plan(instance, p).elements.len() == (match decklink::mode_under(p) {
            StreamMode::AudioVideo => 2nat,
            StreamMode::Video => 1,
            StreamMode::Audio => 4,
        }),
{
    broadcast use contents::what_plans_hold;

}

/// A card that plays no video is fed black frames of the mode that it is set to.
pub proof fn silent_cards_are_fed_black_frames(instance: Seq<char>, p: PropertyMap)
    ensures
        !decklink::mode_under(p).video() ==> contents::makes(decklink::playback_plan(instance, p), plan::member(instance, "video_filler"@), "videotestsrc"@),
        !decklink::mode_under(p).video() ==> contents::sets(
            decklink::playback_plan(instance, p),
            plan::member(instance, "video_filler"@),
            "pattern"@,
            SettingInfo::Parsed("black"@),
        ),
        !decklink::mode_under(p).video() ==> contents::sets(
            decklink::playback_plan(instance, p),
            plan::member(instance, "video_filler"@),
            "is-live"@,
            SettingInfo::Bool(true),
        ),
        !decklink::mode_under(p).video() ==> contents::makes(decklink::playback_plan(instance, p), plan::member(instance, "video_filler_caps"@), "capsfilter"@),
        !decklink::mode_under(p).video() ==> contents::sets(
            decklink::playback_plan(instance, p),
            plan::member(instance, "video_filler_caps"@),
            "caps"@,
            SettingInfo::Caps(decklink::filler_caps()),
        ),
        !decklink::mode_under(p).video() ==> contents::joins(
            decklink::playback_plan(instance, p),
            plan::member(instance, "video_filler"@),
            "src"@,
            plan::member(instance, "video_filler_caps"@),
            "sink"@,
        ),
        !decklink::mode_under(p).video() ==> contents::joins(
            decklink::playback_plan(instance, p),
            plan::member(instance, "video_filler_caps"@),
            "src"@,
            plan::member(instance, "decklinkvideosink"@),
            "sink"@,
        ),
        decklink::playback_plan(instance, p).links.len() == (if decklink::mode_under(p).video() {
            0nat
        } else {
            2
        }),
        decklink::filler_caps().media == "video/x-raw"@,
        decklink::filler_caps().fields.len() == 5,
        contents::fixes(decklink::filler_caps(), "format"@, CapsFieldInfo::Text("UYVY"@)),
        contents::fixes(decklink::filler_caps(), "width"@, CapsFieldInfo::Int(1920)),
        contents::fixes(decklink::filler_caps(), "height"@, CapsFieldInfo::Int(1080)),
        contents::fixes(decklink::filler_caps(), "framerate"@, CapsFieldInfo::Fraction(25, 1)),
        contents::fixes(
            decklink::filler_caps(),
            "interlace-mode"@,
            CapsFieldInfo::Text("progressive"@),
        ),
{
    broadcast use contents::what_plans_hold;

}

/// Each medium has its own pad, which is there where the medium is.
pub proof fn media_have_their_own_pads(mode: StreamMode)
    ensures
        decklink::capture_pads(mode).inputs.len() == 0,
        decklink::playback_pads(mode).outputs.len() == 0,
        decklink::capture_pads(mode).outputs.len() == (if mode == StreamMode::AudioVideo {
            2nat
        } else {
            1
        }),
        mode != StreamMode::Audio ==> contents::shows(
            decklink::capture_pads(mode).outputs,
            "video_out"@,
            MediaType::Video,
            "decklinkvideosrc"@,
            "src"@,
        ),
        mode != StreamMode::Video ==> contents::shows(
            decklink::capture_pads(mode).outputs,
            "audio_out"@,
            MediaType::Audio,
            "decklinkaudiosrc"@,
            "src"@,
        ),
        decklink::playback_pads(mode).inputs.len() == (if mode == StreamMode::AudioVideo {
            2nat
        } else {
            1
        }),
        mode != StreamMode::Audio ==> contents::shows(
            decklink::playback_pads(mode).inputs,
            "video_in"@,
            MediaType::Video,
            "decklinkvideosink"@,
            "sink"@,
        ),
        mode != StreamMode::Video ==> contents::shows(
            decklink::playback_pads(mode).inputs,
            "audio_in"@,
            MediaType::Audio,
            "decklinkaudiosink"@,
            "sink"@,
        ),
{
    let captured = decklink::capture_pads(mode).outputs;
    let played = decklink::playback_pads(mode).inputs;
    if mode != StreamMode::Audio {
        assert(captured[0].name == "video_out"@ && played[0].name == "video_in"@);
    } else {
        assert(captured[0].name == "audio_out"@ && played[0].name == "audio_in"@);
    }
    if mode == StreamMode::AudioVideo {
        assert(captured[1].name == "audio_out"@ && played[1].name == "audio_in"@);
    }
}

/// What the blocks do where nothing is set is what they offer as the default.
pub proof fn card_defaults_are_what_is_done(p: PropertyMap, formats: Seq<Choice>, profiles: Seq<Choice>)
    requires
        p.len() == 0,
    ensures
        decklink::capture_definition(formats, profiles).id == "builtin.decklink_input"@,
        decklink::capture_definition(formats, profiles).exposed_properties.len() == 11,
        decklink::capture_definition(formats, profiles).external_pads == decklink::capture_pads(decklink::mode_under(p)),
        contents::offers(
            decklink::capture_definition(formats, profiles),
            "stream_mode"@,
            Some(PropertyTree::Text("audio_video"@)),
            "_block"@,
            "stream_mode"@,
            false,
        ),
        contents::offers(
            decklink::capture_definition(formats, profiles),
            "device_number"@,
            Some(PropertyTree::UInt(decklink::device_number(p) as u64)),
            "_block"@,
            "device_number"@,
            false,
        ),
        contents::offers(
            decklink::capture_definition(formats, profiles),
            "mode"@,
            Some(PropertyTree::Text(properties::text_or(p, "mode"@, "auto"@))),
            "_block"@,
            "mode"@,
            false,
        ),
        contents::offers(
            decklink::capture_definition(formats, profiles),
            "connection"@,
            Some(PropertyTree::Text(properties::text_or(p, "connection"@, "auto"@))),
            "_block"@,
            "connection"@,
            false,
        ),
        contents::offers(
            decklink::capture_definition(formats, profiles),
            "video_format"@,
            Some(PropertyTree::Text(properties::text_or(p, "video_format"@, "auto"@))),
            "_block"@,
            "video_format"@,
            false,
        ),
        contents::offers(
            decklink::capture_definition(formats, profiles),
            "profile"@,
            Some(PropertyTree::Text(properties::text_or(p, "profile"@, "default"@))),
            "_block"@,
            "profile"@,
            false,
        ),
        contents::offers(
            decklink::capture_definition(formats, profiles),
            "audio_connection"@,
            Some(PropertyTree::Text(properties::text_or(p, "audio_connection"@, "auto"@))),
            "_block"@,
            "audio_connection"@,
            false,
        ),
        contents::offers(
            decklink::capture_definition(formats, profiles),
            "drop_no_signal_frames"@,
            Some(PropertyTree::Bool(properties::bool_or(p, "drop_no_signal_frames"@, false))),
            "_block"@,
            "drop_no_signal_frames"@,
            false,
        ),
        contents::offers(
            decklink::capture_definition(formats, profiles),
            "do_timestamp"@,
            Some(PropertyTree::Bool(properties::bool_or(p, "do_timestamp"@, false))),
            "_block"@,
            "do_timestamp"@,
            false,
        ),
        contents::offers(
            decklink::capture_definition(formats, profiles),
            "persistent_id"@,
            Some(PropertyTree::Int(decklink::persistent_id(p))),
            "_block"@,
            "persistent_id"@,
            false,
        ),
        contents::offers(
            decklink::capture_definition(formats, profiles),
            "audio_channels"@,
            Some(PropertyTree::Text(decklink::audio_channels(p))),
            "_block"@,
            "audio_channels"@,
            false,
        ),
        decklink::playback_definition(formats).id == "builtin.decklink_output"@,
        decklink::playback_definition(formats).exposed_properties.len() == 4,
        decklink::playback_definition(formats).external_pads == decklink::playback_pads(decklink::mode_under(p)),
        contents::offers(
            decklink::playback_definition(formats),
            "stream_mode"@,
            Some(PropertyTree::Text("audio_video"@)),
            "_block"@,
            "stream_mode"@,
            false,
        ),
        contents::offers(
            decklink::playback_definition(formats),
            "device_number"@,
            Some(PropertyTree::UInt(decklink::device_number(p) as u64)),
            "_block"@,
            "device_number"@,
            false,
        ),
        contents::offers(
            decklink::playback_definition(formats),
            "mode"@,
            Some(PropertyTree::Text(properties::text_or(p, "mode"@, "1080p25"@))),
            "_block"@,
            "mode"@,
            false,
        ),
        contents::offers(
            decklink::playback_definition(formats),
            "video_format"@,
            Some(PropertyTree::Text(properties::text_or(p, "video_format"@, "8bit-yuv"@))),
            "_block"@,
            "video_format"@,
            false,
        ),
{
    broadcast use contents::what_definitions_offer;

    assert(text::lookup(p, "device_number"@) is None);
    assert(text::lookup(p, "mode"@) is None);
    assert(text::lookup(p, "connection"@) is None);
    assert(text::lookup(p, "video_format"@) is None);
    assert(text::lookup(p, "profile"@) is None);
    assert(text::lookup(p, "audio_connection"@) is None);
    assert(text::lookup(p, "drop_no_signal_frames"@) is None);
    assert(text::lookup(p, "do_timestamp"@) is None);
    assert(text::lookup(p, "persistent_id"@) is None);
    assert(text::lookup(p, "audio_channels"@) is None);
    assert(text::lookup(p, "stream_mode"@) is None);
}

} // verus!
