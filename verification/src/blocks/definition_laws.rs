//! Laws on how the blocks present themselves: what they are called, what can be
//! chosen, and that what a compositor offers as the default is what it does.

use crate::blocks::audio_bridge;
use crate::blocks::audio_bridge::BridgeLimits;
use crate::blocks::contents;
use crate::blocks::decklink;
use crate::blocks::definition;
use crate::blocks::definition::{Choice, DefinitionInfo, StreamMode};
use crate::blocks::devicesrc;
use crate::blocks::glcompositor;
use crate::blocks::html_input;
use crate::blocks::liveaudiorouter;
use crate::blocks::mediaplayer;
use crate::blocks::rtmp;
use crate::blocks::time_offset;
use crate::properties::PropertyTree;
use crate::text;
use vstd::prelude::*;

verus! {

/// A block of the program's own, under a name and in a group.
pub open spec fn is_called(d: DefinitionInfo, name: Seq<char>, group: Seq<char>) -> bool {
    d.name == name && d.category == group && d.built_in
}

/// A block is drawn with a symbol and so large, in tenths.
pub open spec fn is_drawn(
    d: DefinitionInfo,
    icon: Option<Seq<char>>,
    width: u32,
    height: u32,
) -> bool {
    d.ui_metadata matches Some(looks) && looks.icon == icon && looks.width_tenths == Some(width)
        && looks.height_tenths == Some(height)
}

broadcast proof fn lemma_channels_keep_looks(
    d: DefinitionInfo,
    side: Seq<char>,
    title: Seq<char>,
    n: nat,
)
    ensures
        ({
            let all = #[trigger] liveaudiorouter::with_channels(d, side, title, n);
            &&& all.name == d.name
            &&& all.category == d.category
            &&& all.built_in == d.built_in
            &&& all.ui_metadata == d.ui_metadata
        }),
    decreases n,
{
    if n > 0 {
        lemma_channels_keep_looks(d, side, title, (n - 1) as nat);
    }
}

/// Every block is one of the program's own, under its name, in its group, and with
/// its symbol.
pub proof fn blocks_have_names_and_symbols(
    id: Seq<char>,
    location: Seq<char>,
    formats: Seq<Choice>,
    profiles: Seq<Choice>,
    limits: BridgeLimits,
)
    ensures
        is_called(html_input::page_definition(), "HTML Input"@, "Inputs"@),
        is_drawn(html_input::page_definition(), Some("🌐"@), 25, 20),
        is_called(rtmp::output_definition(location), "RTMP Output"@, "Outputs"@),
        is_drawn(rtmp::output_definition(location), Some("📡"@), 15, 20),
        is_called(decklink::capture_definition(formats, profiles), "DeckLink Input"@, "Inputs"@),
        is_drawn(decklink::capture_definition(formats, profiles), Some("📹"@), 20, 15),
        is_called(decklink::playback_definition(formats), "DeckLink Output"@, "Outputs"@),
        is_drawn(decklink::playback_definition(formats), Some("📺"@), 20, 15),
        is_called(devicesrc::capture_definition(), "Local Input"@, "Inputs"@),
        is_drawn(devicesrc::capture_definition(), Some("🎥"@), 20, 15),
        is_called(mediaplayer::player_definition(), "Media Player"@, "Inputs"@),
        is_drawn(mediaplayer::player_definition(), None, 30, 25),
        is_called(liveaudiorouter::router_definition(), "Live Audio Router"@, "Audio"@),
        is_drawn(liveaudiorouter::router_definition(), Some("🔀"@), 30, 25),
        is_called(audio_bridge::output_info(id), "Audio Bridge Output"@, "Inter-Pipeline"@),
        is_drawn(audio_bridge::output_info(id), Some("📤"@), 15, 15),
        is_called(audio_bridge::input_info(id, limits), "Audio Bridge Input"@, "Inter-Pipeline"@),
        is_drawn(audio_bridge::input_info(id, limits), Some("📥"@), 15, 15),
        is_called(time_offset::offset_definition(), "Time Offset"@, "Effects"@),
        is_drawn(time_offset::offset_definition(), Some("⏱"@), 15, 10),
        is_called(glcompositor::compositor_definition(), "OpenGL Video Compositor"@, "Video"@),
        is_drawn(glcompositor::compositor_definition(), Some("🎬"@), 20, 25),
        glcompositor::compositor_definition().ui_metadata->0.color == Some("#9C27B0"@),
{
    broadcast use lemma_channels_keep_looks;

}

/// Blocks of the bridge have colours of their own, in light and in dark.
pub proof fn bridges_have_their_colours(icon: Seq<char>)
    ensures
        ({
            let looks = audio_bridge::bridge_looks(icon);
            &&& looks.icon == Some(icon)
            &&& looks.light_fill_color == Some("#FEF0E0"@)
            &&& looks.light_stroke_color == Some("#C07020"@)
            &&& looks.dark_fill_color == Some("#352A1E"@)
            &&& looks.dark_stroke_color == Some("#E8A050"@)
        }),
{
}

/// A value can be chosen, and is shown by a label.
pub open spec fn can_be_chosen(all: Seq<Choice>, value: Seq<char>, label: Seq<char>) -> bool {
    all.contains((value, Some(label)))
}

/// Resolutions and rates of a card.
pub proof fn card_modes_can_be_chosen()
    ensures
        decklink::video_modes().len() == 23,
        can_be_chosen(decklink::video_modes(), "auto"@, "Auto"@),
        can_be_chosen(decklink::video_modes(), "1080p2398"@, "1080p 23.98"@),
        can_be_chosen(decklink::video_modes(), "1080p24"@, "1080p 24"@),
        can_be_chosen(decklink::video_modes(), "1080p25"@, "1080p 25"@),
        can_be_chosen(decklink::video_modes(), "1080p2997"@, "1080p 29.97"@),
        can_be_chosen(decklink::video_modes(), "1080p30"@, "1080p 30"@),
        can_be_chosen(decklink::video_modes(), "1080p50"@, "1080p 50"@),
        can_be_chosen(decklink::video_modes(), "1080p5994"@, "1080p 59.94"@),
        can_be_chosen(decklink::video_modes(), "1080p60"@, "1080p 60"@),
        can_be_chosen(decklink::video_modes(), "1080i50"@, "1080i 50"@),
        can_be_chosen(decklink::video_modes(), "1080i5994"@, "1080i 59.94"@),
        can_be_chosen(decklink::video_modes(), "1080i60"@, "1080i 60"@),
        can_be_chosen(decklink::video_modes(), "720p50"@, "720p 50"@),
        can_be_chosen(decklink::video_modes(), "720p5994"@, "720p 59.94"@),
        can_be_chosen(decklink::video_modes(), "720p60"@, "720p 60"@),
        can_be_chosen(decklink::video_modes(), "2160p2398"@, "4K 23.98"@),
        can_be_chosen(decklink::video_modes(), "2160p24"@, "4K 24"@),
        can_be_chosen(decklink::video_modes(), "2160p25"@, "4K 25"@),
        can_be_chosen(decklink::video_modes(), "2160p2997"@, "4K 29.97"@),
        can_be_chosen(decklink::video_modes(), "2160p30"@, "4K 30"@),
        can_be_chosen(decklink::video_modes(), "2160p50"@, "4K 50"@),
        can_be_chosen(decklink::video_modes(), "2160p5994"@, "4K 59.94"@),
        can_be_chosen(decklink::video_modes(), "2160p60"@, "4K 60"@),
{
    let all = decklink::video_modes();
    assert(all[0] == ("auto"@, Some("Auto"@)));
    assert(all[1] == ("1080p2398"@, Some("1080p 23.98"@)));
    assert(all[2] == ("1080p24"@, Some("1080p 24"@)));
    assert(all[3] == ("1080p25"@, Some("1080p 25"@)));
    assert(all[4] == ("1080p2997"@, Some("1080p 29.97"@)));
    assert(all[5] == ("1080p30"@, Some("1080p 30"@)));
    assert(all[6] == ("1080p50"@, Some("1080p 50"@)));
    assert(all[7] == ("1080p5994"@, Some("1080p 59.94"@)));
    assert(all[8] == ("1080p60"@, Some("1080p 60"@)));
    assert(all[9] == ("1080i50"@, Some("1080i 50"@)));
    assert(all[10] == ("1080i5994"@, Some("1080i 59.94"@)));
    assert(all[11] == ("1080i60"@, Some("1080i 60"@)));
    assert(all[12] == ("720p50"@, Some("720p 50"@)));
    assert(all[13] == ("720p5994"@, Some("720p 59.94"@)));
    assert(all[14] == ("720p60"@, Some("720p 60"@)));
    assert(all[15] == ("2160p2398"@, Some("4K 23.98"@)));
    assert(all[16] == ("2160p24"@, Some("4K 24"@)));
    assert(all[17] == ("2160p25"@, Some("4K 25"@)));
    assert(all[18] == ("2160p2997"@, Some("4K 29.97"@)));
    assert(all[19] == ("2160p30"@, Some("4K 30"@)));
    assert(all[20] == ("2160p50"@, Some("4K 50"@)));
    assert(all[21] == ("2160p5994"@, Some("4K 59.94"@)));
    assert(all[22] == ("2160p60"@, Some("4K 60"@)));
}

/// Media of a card.
pub proof fn card_media_can_be_chosen()
    ensures
        decklink::stream_modes().len() == 3,
        can_be_chosen(decklink::stream_modes(), "audio_video"@, "Audio + Video"@),
        can_be_chosen(decklink::stream_modes(), "video"@, "Video only"@),
        can_be_chosen(decklink::stream_modes(), "audio"@, "Audio only"@),
{
    let all = decklink::stream_modes();
    assert(all[0] == ("audio_video"@, Some("Audio + Video"@)));
    assert(all[1] == ("video"@, Some("Video only"@)));
    assert(all[2] == ("audio"@, Some("Audio only"@)));
}

/// Where video enters a card.
pub proof fn video_connections_can_be_chosen()
    ensures
        decklink::connections().len() == 7,
        can_be_chosen(decklink::connections(), "auto"@, "Auto"@),
        can_be_chosen(decklink::connections(), "sdi"@, "SDI"@),
        can_be_chosen(decklink::connections(), "hdmi"@, "HDMI"@),
        can_be_chosen(decklink::connections(), "optical-sdi"@, "Optical SDI"@),
        can_be_chosen(decklink::connections(), "component"@, "Component"@),
        can_be_chosen(decklink::connections(), "composite"@, "Composite"@),
        can_be_chosen(decklink::connections(), "svideo"@, "S-Video"@),
{
    let all = decklink::connections();
    assert(all[0] == ("auto"@, Some("Auto"@)));
    assert(all[1] == ("sdi"@, Some("SDI"@)));
    assert(all[2] == ("hdmi"@, Some("HDMI"@)));
    assert(all[3] == ("optical-sdi"@, Some("Optical SDI"@)));
    assert(all[4] == ("component"@, Some("Component"@)));
    assert(all[5] == ("composite"@, Some("Composite"@)));
    assert(all[6] == ("svideo"@, Some("S-Video"@)));
}

/// Where audio enters a card.
pub proof fn audio_connections_can_be_chosen()
    ensures
        decklink::audio_connections().len() == 6,
        can_be_chosen(decklink::audio_connections(), "auto"@, "Auto"@),
        can_be_chosen(decklink::audio_connections(), "embedded"@, "Embedded (SDI/HDMI)"@),
        can_be_chosen(decklink::audio_connections(), "aes"@, "AES/EBU"@),
        can_be_chosen(decklink::audio_connections(), "analog"@, "Analog"@),
        can_be_chosen(decklink::audio_connections(), "analog-xlr"@, "Analog (XLR)"@),
        can_be_chosen(decklink::audio_connections(), "analog-rca"@, "Analog (RCA)"@),
{
    let all = decklink::audio_connections();
    assert(all[0] == ("auto"@, Some("Auto"@)));
    assert(all[1] == ("embedded"@, Some("Embedded (SDI/HDMI)"@)));
    assert(all[2] == ("aes"@, Some("AES/EBU"@)));
    assert(all[3] == ("analog"@, Some("Analog"@)));
    assert(all[4] == ("analog-xlr"@, Some("Analog (XLR)"@)));
    assert(all[5] == ("analog-rca"@, Some("Analog (RCA)"@)));
}

/// How many channels a card captures.
pub proof fn channel_counts_can_be_chosen()
    ensures
        decklink::channel_counts().len() == 4,
        can_be_chosen(decklink::channel_counts(), "2"@, "2 (Stereo)"@),
        can_be_chosen(decklink::channel_counts(), "8"@, "8"@),
        can_be_chosen(decklink::channel_counts(), "16"@, "16"@),
        can_be_chosen(decklink::channel_counts(), "max"@, "Max (auto-detect)"@),
{
    let all = decklink::channel_counts();
    assert(all[0] == ("2"@, Some("2 (Stereo)"@)));
    assert(all[1] == ("8"@, Some("8"@)));
    assert(all[2] == ("16"@, Some("16"@)));
    assert(all[3] == ("max"@, Some("Max (auto-detect)"@)));
}

/// Media of a page.
pub proof fn page_media_can_be_chosen()
    ensures
        html_input::stream_modes().len() == 3,
        can_be_chosen(html_input::stream_modes(), "video"@, "Video"@),
        can_be_chosen(html_input::stream_modes(), "audio_video"@, "Audio + Video"@),
        can_be_chosen(html_input::stream_modes(), "audio"@, "Audio"@),
{
    let all = html_input::stream_modes();
    assert(all[0] == ("video"@, Some("Video"@)));
    assert(all[1] == ("audio_video"@, Some("Audio + Video"@)));
    assert(all[2] == ("audio"@, Some("Audio"@)));
}

/// Media of a local input.
pub proof fn local_media_can_be_chosen()
    ensures
        devicesrc::stream_modes().len() == 3,
        can_be_chosen(devicesrc::stream_modes(), "audio_video"@, "Audio + Video"@),
        can_be_chosen(devicesrc::stream_modes(), "video"@, "Video only"@),
        can_be_chosen(devicesrc::stream_modes(), "audio"@, "Audio only"@),
{
    let all = devicesrc::stream_modes();
    assert(all[0] == ("audio_video"@, Some("Audio + Video"@)));
    assert(all[1] == ("video"@, Some("Video only"@)));
    assert(all[2] == ("audio"@, Some("Audio only"@)));
}

/// What lies behind the inputs of a compositor.
pub proof fn backgrounds_can_be_chosen()
    ensures
        glcompositor::background_choices().len() == 4,
        can_be_chosen(glcompositor::background_choices(), "black"@, "Black"@),
        can_be_chosen(glcompositor::background_choices(), "white"@, "White"@),
        can_be_chosen(glcompositor::background_choices(), "checker"@, "Checker Pattern"@),
        can_be_chosen(glcompositor::background_choices(), "transparent"@, "Transparent"@),
{
    let all = glcompositor::background_choices();
    assert(all[0] == ("black"@, Some("Black"@)));
    assert(all[1] == ("white"@, Some("White"@)));
    assert(all[2] == ("checker"@, Some("Checker Pattern"@)));
    assert(all[3] == ("transparent"@, Some("Transparent"@)));
}

/// How the inputs of a compositor are fitted.
pub proof fn sizings_can_be_chosen()
    ensures
        glcompositor::sizing_choices().len() == 2,
        can_be_chosen(glcompositor::sizing_choices(), "none"@, "None (Stretch to Fill)"@),
        can_be_chosen(glcompositor::sizing_choices(), "keep-aspect-ratio"@, "Keep Aspect Ratio"@),
{
    let all = glcompositor::sizing_choices();
    assert(all[0] == ("none"@, Some("None (Stretch to Fill)"@)));
    assert(all[1] == ("keep-aspect-ratio"@, Some("Keep Aspect Ratio"@)));
}

/// Each choice of media is the one that it names, for every block that has it.
pub proof fn chosen_media_are_the_named_ones()
    ensures
        definition::named_mode("audio_video"@) == StreamMode::AudioVideo,
        definition::named_mode("video"@) == StreamMode::Video,
        definition::named_mode("audio"@) == StreamMode::Audio,
        StreamMode::AudioVideo.video() && StreamMode::AudioVideo.audio(),
        StreamMode::Video.video() && !StreamMode::Video.audio(),
        !StreamMode::Audio.video() && StreamMode::Audio.audio(),
{
    reveal_strlit("audio_video");
    reveal_strlit("video");
    reveal_strlit("audio");
    assert("audio_video"@.len() == 11 && "video"@.len() == 5 && "audio"@.len() == 5);
    assert("video"@[0] == 'v' && "audio"@[0] == 'a');
}

proof fn lemma_digits()
    ensures
        text::decimal(0) == seq!['0'],
        text::decimal(1) == seq!['1'],
{
    reveal_with_fuel(text::decimal, 2);
    assert(text::decimal(0) =~= seq!['0']);
    assert(text::decimal(1) =~= seq!['1']);
}

/// A compositor offers two inputs on a black full canvas: the first at its edge, the
/// second from its middle on, each as large as it comes, opaque, in its shape, and
/// over the one before.
pub proof fn compositor_offers_what_it_does()
    ensures
        glcompositor::compositor_definition().id == "builtin.glcompositor"@,
        glcompositor::compositor_definition().exposed_properties.len() == 21,
        glcompositor::compositor_definition().external_pads == glcompositor::compositor_pads(2),
        contents::offers(
            glcompositor::compositor_definition(),
            "num_inputs"@,
            Some(PropertyTree::UInt(2)),
            "_block"@,
            "num_inputs"@,
            false,
        ),
        contents::offers(
            glcompositor::compositor_definition(),
            "output_width"@,
            Some(PropertyTree::UInt(1920)),
            "_block"@,
            "output_width"@,
            false,
        ),
        contents::offers(
            glcompositor::compositor_definition(),
            "output_height"@,
            Some(PropertyTree::UInt(1080)),
            "_block"@,
            "output_height"@,
            false,
        ),
        contents::offers(
            glcompositor::compositor_definition(),
            "background"@,
            Some(PropertyTree::Text("black"@)),
            "_block"@,
            "background"@,
            false,
        ),
        contents::offers(
            glcompositor::compositor_definition(),
            "latency"@,
            Some(PropertyTree::UInt(0)),
            "_block"@,
            "latency"@,
            false,
        ),
        contents::offers(
            glcompositor::compositor_definition(),
            "min_upstream_latency"@,
            Some(PropertyTree::UInt(0)),
            "_block"@,
            "min_upstream_latency"@,
            false,
        ),
        contents::offers(
            glcompositor::compositor_definition(),
            "force_live"@,
            Some(PropertyTree::Bool(true)),
            "_block"@,
            "force_live"@,
            false,
        ),
        contents::offers(
            glcompositor::compositor_definition(),
            "input_0_xpos"@,
            Some(PropertyTree::Int(0)),
            "_block"@,
            "input_0_xpos"@,
            false,
        ),
        contents::offers(
            glcompositor::compositor_definition(),
            "input_0_ypos"@,
            Some(PropertyTree::Int(0)),
            "_block"@,
            "input_0_ypos"@,
            false,
        ),
        contents::offers(
            glcompositor::compositor_definition(),
            "input_0_width"@,
            Some(PropertyTree::Int(-1i64 as i64)),
            "_block"@,
            "input_0_width"@,
            false,
        ),
        contents::offers(
            glcompositor::compositor_definition(),
            "input_0_height"@,
            Some(PropertyTree::Int(-1i64 as i64)),
            "_block"@,
            "input_0_height"@,
            false,
        ),
        contents::offers(
            glcompositor::compositor_definition(),
            "input_0_alpha"@,
            Some(PropertyTree::Float(0x3ff0000000000000)),
            "_block"@,
            "input_0_alpha"@,
            false,
        ),
        contents::offers(
            glcompositor::compositor_definition(),
            "input_0_zorder"@,
            Some(PropertyTree::UInt(0)),
            "_block"@,
            "input_0_zorder"@,
            false,
        ),
        contents::offers(
            glcompositor::compositor_definition(),
            "input_0_sizing_policy"@,
            Some(PropertyTree::Text("keep-aspect-ratio"@)),
            "_block"@,
            "input_0_sizing_policy"@,
            false,
        ),
        contents::offers(
            glcompositor::compositor_definition(),
            "input_1_xpos"@,
            Some(PropertyTree::Int(960)),
            "_block"@,
            "input_1_xpos"@,
            false,
        ),
        contents::offers(
            glcompositor::compositor_definition(),
            "input_1_ypos"@,
            Some(PropertyTree::Int(0)),
            "_block"@,
            "input_1_ypos"@,
            false,
        ),
        contents::offers(
            glcompositor::compositor_definition(),
            "input_1_width"@,
            Some(PropertyTree::Int(-1i64 as i64)),
            "_block"@,
            "input_1_width"@,
            false,
        ),
        contents::offers(
            glcompositor::compositor_definition(),
            "input_1_height"@,
            Some(PropertyTree::Int(-1i64 as i64)),
            "_block"@,
            "input_1_height"@,
            false,
        ),
        contents::offers(
            glcompositor::compositor_definition(),
            "input_1_alpha"@,
            Some(PropertyTree::Float(0x3ff0000000000000)),
            "_block"@,
            "input_1_alpha"@,
            false,
        ),
        contents::offers(
            glcompositor::compositor_definition(),
            "input_1_zorder"@,
            Some(PropertyTree::UInt(1)),
            "_block"@,
            "input_1_zorder"@,
            false,
        ),
        contents::offers(
            glcompositor::compositor_definition(),
            "input_1_sizing_policy"@,
            Some(PropertyTree::Text("keep-aspect-ratio"@)),
            "_block"@,
            "input_1_sizing_policy"@,
            false,
        ),
{
    broadcast use contents::what_definitions_offer;

    lemma_digits();
    assert(glcompositor::input_name(0, "_xpos"@) =~= "input_0_xpos"@) by {
        reveal_strlit("input_");
        reveal_strlit("_xpos");
        reveal_strlit("input_0_xpos");
    }
    assert(glcompositor::input_name(0, "_ypos"@) =~= "input_0_ypos"@) by {
        reveal_strlit("input_");
        reveal_strlit("_ypos");
        reveal_strlit("input_0_ypos");
    }
    assert(glcompositor::input_name(0, "_width"@) =~= "input_0_width"@) by {
        reveal_strlit("input_");
        reveal_strlit("_width");
        reveal_strlit("input_0_width");
    }
    assert(glcompositor::input_name(0, "_height"@) =~= "input_0_height"@) by {
        reveal_strlit("input_");
        reveal_strlit("_height");
        reveal_strlit("input_0_height");
    }
    assert(glcompositor::input_name(0, "_alpha"@) =~= "input_0_alpha"@) by {
        reveal_strlit("input_");
        reveal_strlit("_alpha");
        reveal_strlit("input_0_alpha");
    }
    assert(glcompositor::input_name(0, "_zorder"@) =~= "input_0_zorder"@) by {
        reveal_strlit("input_");
        reveal_strlit("_zorder");
        reveal_strlit("input_0_zorder");
    }
    assert(glcompositor::input_name(0, "_sizing_policy"@) =~= "input_0_sizing_policy"@) by {
        reveal_strlit("input_");
        reveal_strlit("_sizing_policy");
        reveal_strlit("input_0_sizing_policy");
    }
    assert(glcompositor::input_name(1, "_xpos"@) =~= "input_1_xpos"@) by {
        reveal_strlit("input_");
        reveal_strlit("_xpos");
        reveal_strlit("input_1_xpos");
    }
    assert(glcompositor::input_name(1, "_ypos"@) =~= "input_1_ypos"@) by {
        reveal_strlit("input_");
        reveal_strlit("_ypos");
        reveal_strlit("input_1_ypos");
    }
    assert(glcompositor::input_name(1, "_width"@) =~= "input_1_width"@) by {
        reveal_strlit("input_");
        reveal_strlit("_width");
        reveal_strlit("input_1_width");
    }
    assert(glcompositor::input_name(1, "_height"@) =~= "input_1_height"@) by {
        reveal_strlit("input_");
        reveal_strlit("_height");
        reveal_strlit("input_1_height");
    }
    assert(glcompositor::input_name(1, "_alpha"@) =~= "input_1_alpha"@) by {
        reveal_strlit("input_");
        reveal_strlit("_alpha");
        reveal_strlit("input_1_alpha");
    }
    assert(glcompositor::input_name(1, "_zorder"@) =~= "input_1_zorder"@) by {
        reveal_strlit("input_");
        reveal_strlit("_zorder");
        reveal_strlit("input_1_zorder");
    }
    assert(glcompositor::input_name(1, "_sizing_policy"@) =~= "input_1_sizing_policy"@) by {
        reveal_strlit("input_");
        reveal_strlit("_sizing_policy");
        reveal_strlit("input_1_sizing_policy");
    }
}

} // verus!
