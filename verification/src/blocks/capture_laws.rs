//! What the properties of a local input do: laws on the devices that are captured
//! from and on what is made of what they deliver.

use crate::blocks::contents;
use crate::blocks::definition::{MediaType, StreamMode};
use crate::blocks::devicesrc;
use crate::blocks::plan;
use crate::blocks::plan::{BuildErrorInfo, Recipe, SettingInfo};
use crate::properties;
use crate::properties::{PropertyMap, PropertyTree};
use crate::text;
use vstd::prelude::*;

verus! {

/// Where no device is picked a medium comes from what the host takes by default.
/// Where one is picked it comes from that one and no other, and is refused where
/// the host does not have it.
pub proof fn sources_are_what_is_picked(
    media: MediaType,
    device: Seq<char>,
    element: Seq<char>,
    fallback: Seq<char>,
    devices: Seq<(Seq<char>, Seq<char>)>,
)
    ensures
        devicesrc::source(media, device, element, fallback, devices) matches Ok(e) ==> e.id
            == element && e.settings.len() == 0 && e.requests.len() == 0,
        device.len() == 0 ==> (devicesrc::source(media, device, element, fallback, devices)
            matches Ok(e) && e.factory == fallback && e.recipe == Recipe::Factory),
        device.len() > 0 && media != MediaType::Generic ==> (devicesrc::source(
            media,
            device,
            element,
            fallback,
            devices,
        ) is Ok <==> text::lookup(devices, device) is Some),
        device.len() > 0 ==> (devicesrc::source(media, device, element, fallback, devices)
            matches Ok(e) ==> e.factory == device && e.recipe == Recipe::Device && e.label
            == "create_element for "@ + (if media == MediaType::Video {
            "Video/Source"@
        } else {
            "Audio/Source"@
        }) + " device '"@ + text::lookup(devices, device)->0 + "' ("@ + device + ")"@),
        media != MediaType::Generic ==> (devicesrc::source(
            media,
            device,
            element,
            fallback,
            devices,
        ) matches Err(BuildErrorInfo::InvalidConfiguration(m)) ==> m == (if media == MediaType::Video {
            "Video/Source"@
        } else {
            "Audio/Source"@
        }) + " device '"@ + device
            + "' not found — refresh /api/discovery/devices and pick a current id"@),
        devicesrc::source(media, device, element, fallback, devices) matches Err(e) ==> e
            is InvalidConfiguration,
{
}

/// The device that is picked under a name is there, or none is picked.
pub open spec fn picked_is_there(
    p: PropertyMap,
    name: Seq<char>,
    devices: Seq<(Seq<char>, Seq<char>)>,
) -> bool {
    match text::lookup(p, name) {
        Some(PropertyTree::Text(s)) => s.len() == 0 || text::lookup(devices, s) is Some,
        _ => true,
    }
}

/// A block is refused only for a device of a medium that it captures; where both
/// are not there it is refused for the one that is seen.
pub proof fn only_wanted_devices_matter(
    instance: Seq<char>,
    p: PropertyMap,
    convert: Seq<char>,
    devices: Seq<(Seq<char>, Seq<char>)>,
)
    ensures
        devicesrc::capture(instance, p, convert, devices) is Ok <==> (devicesrc::mode_under(p).video() ==> picked_is_there(
            p,
            "video_device"@,
            devices,
        )) && (devicesrc::mode_under(p).audio() ==> picked_is_there(p, "audio_device"@, devices)),
        devicesrc::mode_under(p).video() && !picked_is_there(p, "video_device"@, devices) ==> (devicesrc::capture(instance, p, convert, devices)
            matches Err(BuildErrorInfo::InvalidConfiguration(m)) && m == "Video/Source"@ + " device '"@ + properties::text_or(
            p,
            "video_device"@,
            ""@,
        ) + "' not found — refresh /api/discovery/devices and pick a current id"@),
{
    reveal_strlit("");
}

/// Both media are captured unless one of them alone is set.
pub proof fn both_media_are_captured_unless_set_otherwise(p: PropertyMap)
    ensures
        devicesrc::mode_under(p).video() <==> text::lookup(p, "stream_mode"@) != Some(
            PropertyTree::Text("audio"@),
        ),
        devicesrc::mode_under(p).audio() <==> text::lookup(p, "stream_mode"@) != Some(
            PropertyTree::Text("video"@),
        ),
{
    reveal_strlit("video");
    reveal_strlit("audio");
    assert("video"@[0] == 'v' && "audio"@[0] == 'a');
}

/// Each medium that is wanted comes from its device and is made raw on the way.
pub proof fn captured_media_are_made_raw(
    instance: Seq<char>,
    p: PropertyMap,
    convert: Seq<char>,
    devices: Seq<(Seq<char>, Seq<char>)>,
)
    requires
        devicesrc::capture(instance, p, convert, devices) is Ok,
    ensures
        devicesrc::mode_under(p).video() ==> contents::joins(
            devicesrc::capture(instance, p, convert, devices)->Ok_0,
            plan::member(instance, "videosrc"@),
            "src"@,
            plan::member(instance, "videoconvert"@),
            "sink"@,
        ),
        devicesrc::mode_under(p).video() ==> contents::joins(
            devicesrc::capture(instance, p, convert, devices)->Ok_0,
            plan::member(instance, "videoconvert"@),
            "src"@,
            plan::member(instance, "videocapsfilter"@),
            "sink"@,
        ),
        devicesrc::mode_under(p).video() ==> contents::makes(devicesrc::capture(instance, p, convert, devices)->Ok_0, plan::member(instance, "videoconvert"@), convert),
        devicesrc::mode_under(p).video() ==> contents::makes(devicesrc::capture(instance, p, convert, devices)->Ok_0, plan::member(instance, "videocapsfilter"@), "capsfilter"@),
        devicesrc::mode_under(p).video() ==> contents::sets(
            devicesrc::capture(instance, p, convert, devices)->Ok_0,
            plan::member(instance, "videocapsfilter"@),
            "caps"@,
            SettingInfo::Caps(plan::any_of("video/x-raw"@)),
        ),
        devicesrc::mode_under(p).video() ==> contents::makes(
            devicesrc::capture(instance, p, convert, devices)->Ok_0,
            plan::member(instance, "videosrc"@),
            if properties::text_or(p, "video_device"@, ""@).len() == 0 {
                "autovideosrc"@
            } else {
                properties::text_or(p, "video_device"@, ""@)
            },
        ),
        devicesrc::mode_under(p).audio() ==> contents::joins(
            devicesrc::capture(instance, p, convert, devices)->Ok_0,
            plan::member(instance, "audiosrc"@),
            "src"@,
            plan::member(instance, "audioconvert"@),
            "sink"@,
        ),
        devicesrc::mode_under(p).audio() ==> contents::joins(
            devicesrc::capture(instance, p, convert, devices)->Ok_0,
            plan::member(instance, "audioconvert"@),
            "src"@,
            plan::member(instance, "audioresample"@),
            "sink"@,
        ),
        devicesrc::mode_under(p).audio() ==> contents::joins(
            devicesrc::capture(instance, p, convert, devices)->Ok_0,
            plan::member(instance, "audioresample"@),
            "src"@,
            plan::member(instance, "audiocapsfilter"@),
            "sink"@,
        ),
        devicesrc::mode_under(p).audio() ==> contents::makes(devicesrc::capture(instance, p, convert, devices)->Ok_0, plan::member(instance, "audioconvert"@), "audioconvert"@),
        devicesrc::mode_under(p).audio() ==> contents::makes(devicesrc::capture(instance, p, convert, devices)->Ok_0, plan::member(instance, "audioresample"@), "audioresample"@),
        devicesrc::mode_under(p).audio() ==> contents::makes(devicesrc::capture(instance, p, convert, devices)->Ok_0, plan::member(instance, "audiocapsfilter"@), "capsfilter"@),
        devicesrc::mode_under(p).audio() ==> contents::sets(
            devicesrc::capture(instance, p, convert, devices)->Ok_0,
            plan::member(instance, "audiocapsfilter"@),
            "caps"@,
            SettingInfo::Caps(plan::any_of("audio/x-raw"@)),
        ),
        devicesrc::mode_under(p).audio() ==> contents::makes(
            devicesrc::capture(instance, p, convert, devices)->Ok_0,
            plan::member(instance, "audiosrc"@),
            if properties::text_or(p, "audio_device"@, ""@).len() == 0 {
                "autoaudiosrc"@
            } else {
                properties::text_or(p, "audio_device"@, ""@)
            },
        ),
        devicesrc::capture(instance, p, convert, devices)->Ok_0.elements.len() == (match devicesrc::mode_under(p) {
            StreamMode::AudioVideo => 7nat,
            StreamMode::Video => 3,
            StreamMode::Audio => 4,
        }),
        devicesrc::capture(instance, p, convert, devices)->Ok_0.links.len() == (match devicesrc::mode_under(p) {
            StreamMode::AudioVideo => 5nat,
            StreamMode::Video => 2,
            StreamMode::Audio => 3,
        }),
{
    broadcast use contents::what_plans_hold;

    let video = devicesrc::video_source(instance, p, devices)->Ok_0;
    let audio = devicesrc::audio_source(instance, p, devices)->Ok_0;
    assert(devicesrc::mode_under(p).video() ==> video.id == plan::member(instance, "videosrc"@));
    assert(devicesrc::mode_under(p).audio() ==> audio.id == plan::member(instance, "audiosrc"@));
}

/// Each medium has its own pad, which is there where the medium is.
pub proof fn captured_media_have_their_own_pads(mode: StreamMode)
    ensures
        devicesrc::capture_pads(mode).inputs.len() == 0,
        devicesrc::capture_pads(mode).outputs.len() == (if mode == StreamMode::AudioVideo {
            2nat
        } else {
            1
        }),
        mode != StreamMode::Audio ==> contents::shows(
            devicesrc::capture_pads(mode).outputs,
            "video_out"@,
            MediaType::Video,
            "videocapsfilter"@,
            "src"@,
        ),
        mode != StreamMode::Video ==> contents::shows(
            devicesrc::capture_pads(mode).outputs,
            "audio_out"@,
            MediaType::Audio,
            "audiocapsfilter"@,
            "src"@,
        ),
{
    let all = devicesrc::capture_pads(mode).outputs;
    if mode != StreamMode::Audio {
        assert(all[0].name == "video_out"@);
    } else {
        assert(all[0].name == "audio_out"@);
    }
    if mode == StreamMode::AudioVideo {
        assert(all[1].name == "audio_out"@);
    }
}

/// What the block does where nothing is set is what it offers as the default.
pub proof fn capture_defaults_are_what_is_done(p: PropertyMap)
    requires
        p.len() == 0,
    ensures
        devicesrc::capture_definition().id == "builtin.local_input"@,
        devicesrc::capture_definition().exposed_properties.len() == 3,
        devicesrc::capture_definition().external_pads == devicesrc::capture_pads(devicesrc::mode_under(p)),
        contents::offers(
            devicesrc::capture_definition(),
            "stream_mode"@,
            Some(PropertyTree::Text("audio_video"@)),
            "_block"@,
            "stream_mode"@,
            false,
        ),
        contents::offers(
            devicesrc::capture_definition(),
            "video_device"@,
            Some(PropertyTree::Text(properties::text_or(p, "video_device"@, ""@))),
            "_block"@,
            "video_device"@,
            false,
        ),
        contents::offers(
            devicesrc::capture_definition(),
            "audio_device"@,
            Some(PropertyTree::Text(properties::text_or(p, "audio_device"@, ""@))),
            "_block"@,
            "audio_device"@,
            false,
        ),
{
    broadcast use contents::what_definitions_offer;

    assert(text::lookup(p, "stream_mode"@) is None);
    assert(text::lookup(p, "video_device"@) is None);
    assert(text::lookup(p, "audio_device"@) is None);
}

} // verus!
