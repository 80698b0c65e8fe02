//! What the properties of an HTML input do: laws on the page that is rendered,
//! its size, and the media that come out.

use crate::blocks::contents;
use crate::blocks::definition::{MediaType, StreamMode};
use crate::blocks::html_input;
use crate::blocks::plan;
use crate::blocks::plan::{BuildErrorInfo, CapsFieldInfo, SettingInfo};
use crate::properties;
use crate::properties::{PropertyMap, PropertyTree};
use crate::text;
use vstd::prelude::*;

verus! {

/// An element of a block: the id of the block, a colon and a name.
pub proof fn elements_are_named_after_their_block(instance: Seq<char>, name: Seq<char>)
    ensures
        plan::member(instance, name).take(instance.len() as int) == instance,
        plan::member(instance, name)[instance.len() as int] == ':',
        plan::member(instance, name).skip(instance.len() as int + 1) == name,
{
    reveal_strlit(":");
    assert(plan::member(instance, name).take(instance.len() as int) =~= instance);
    assert(plan::member(instance, name).skip(instance.len() as int + 1) =~= name);
}

/// The page that is rendered is the one that is set, where that is not blank.
pub proof fn set_page_is_rendered(instance: Seq<char>, p: PropertyMap)
    ensures
        contents::makes(
            html_input::page_plan(instance, p),
            plan::member(instance, "cefsrc"@),
            "cefsrc"@,
        ),
        contents::sets(
            html_input::page_plan(instance, p),
            plan::member(instance, "cefsrc"@),
            "url"@,
            SettingInfo::Text(
                match text::lookup(p, "url"@) {
                    Some(PropertyTree::Text(s)) => if text::trimmed(s).len() > 0 {
                        s
                    } else {
                        "https://example.com"@
                    },
                    _ => "https://example.com"@,
                },
            ),
        ),
        html_input::page_url(p) == properties::filled_text_or(
            p,
            "url"@,
            "https://example.com"@,
        ),
{
    broadcast use contents::what_plans_hold;

}

/// A number above zero is taken as it is set, and nothing else is.
pub proof fn numbers_above_zero_are_taken(p: PropertyMap, name: Seq<char>, fallback: u64)
    ensures
        html_input::positive_under(p, name, fallback) == (match text::lookup(p, name) {
            Some(PropertyTree::UInt(n)) => if n > 0 {
                n as int
            } else {
                fallback as int
            },
            Some(PropertyTree::Int(n)) => if n > 0 {
                n as int
            } else {
                fallback as int
            },
            _ => fallback as int,
        }),
{
}

/// A page is rendered at the size and rate that are set, else at 1920 by 1080 and
/// thirty frames a second, with its transparency.
pub proof fn page_has_its_size(instance: Seq<char>, p: PropertyMap)
    ensures
        contents::sets(
            html_input::page_plan(instance, p),
            plan::member(instance, "capsfilter"@),
            "caps"@,
            SettingInfo::Caps(html_input::viewport(p)),
        ),
        html_input::viewport(p).media == "video/x-raw"@,
        html_input::viewport(p).fields.len() == 4,
        contents::fixes(html_input::viewport(p), "format"@, CapsFieldInfo::Text("BGRA"@)),
        contents::fixes(
            html_input::viewport(p),
            "width"@,
            CapsFieldInfo::Int(html_input::positive_under(p, "width"@, 1920) as i32),
        ),
        contents::fixes(
            html_input::viewport(p),
            "height"@,
            CapsFieldInfo::Int(html_input::positive_under(p, "height"@, 1080) as i32),
        ),
        contents::fixes(
            html_input::viewport(p),
            "framerate"@,
            CapsFieldInfo::Fraction(html_input::positive_under(p, "framerate"@, 30) as i32, 1),
        ),
{
    broadcast use contents::what_plans_hold;

}

/// A page is shown as video unless it is set to be heard, alone or as well.
pub proof fn pages_are_seen_unless_set_otherwise(p: PropertyMap)
    ensures
        html_input::mode_under(p).audio() <==> (text::lookup(p, "stream_mode"@) matches Some(
            PropertyTree::Text(s),
        ) && s != "video"@),
        !html_input::mode_under(p).video() <==> text::lookup(p, "stream_mode"@) == Some(
            PropertyTree::Text("audio"@),
        ),
{
    reveal_strlit("video");
    reveal_strlit("audio");
    assert("video"@[0] == 'v' && "audio"@[0] == 'a');
}

/// What is seen of a page comes out of one pad and what is heard of it out of
/// another, each of which is there where its medium is.
pub proof fn media_come_out_of_their_pads(mode: StreamMode)
    ensures
        html_input::page_pads(mode).inputs.len() == 0,
        html_input::page_pads(mode).outputs.len() == (if mode == StreamMode::AudioVideo {
            2
        } else {
            1nat
        }),
        mode != StreamMode::Audio ==> contents::shows(
            html_input::page_pads(mode).outputs,
            "video_out"@,
            MediaType::Video,
            "video_output"@,
            "src"@,
        ),
        mode != StreamMode::Video ==> contents::shows(
            html_input::page_pads(mode).outputs,
            "audio_out"@,
            MediaType::Audio,
            "audio_output"@,
            "src"@,
        ),
        mode == StreamMode::AudioVideo ==> html_input::page_pads(mode).outputs[0].label == Some(
            "V"@,
        ) && html_input::page_pads(mode).outputs[1].label == Some("A"@),
        mode != StreamMode::AudioVideo ==> html_input::page_pads(mode).outputs[0].label is None,
{
    let all = html_input::page_pads(mode).outputs;
    if mode != StreamMode::Audio {
        assert(all[0].name == "video_out"@);
    } else {
        assert(all[0].name == "audio_out"@);
    }
    if mode == StreamMode::AudioVideo {
        assert(all[1].name == "audio_out"@);
    }
}

/// The frames of the page go through the filter that fixes their size. Where the
/// page is heard its audio is taken out of them behind the filter; what is left
/// is shown where the page is seen, and thrown away where it is not.
pub proof fn page_runs_through_its_chain(instance: Seq<char>, p: PropertyMap)
    ensures
        ({
            let all = html_input::page_plan(instance, p);
            let at = |name: Seq<char>| plan::member(instance, name);
            let mode = html_input::mode_under(p);
            let from = if mode.audio() {
                at("cefdemux"@)
            } else {
                at("capsfilter"@)
            };
            let from_pad = if mode.audio() {
                "video"@
            } else {
                "src"@
            };
            &&& contents::joins(all, at("cefsrc"@), "src"@, at("capsfilter"@), "sink"@)
            &&& mode.audio() ==> contents::joins(
                all,
                at("capsfilter"@),
                "src"@,
                at("cefdemux"@),
                "sink"@,
            ) && contents::joins(all, at("cefdemux"@), "audio"@, at("audioconvert"@), "sink"@)
                && contents::joins(
                all,
                at("audioconvert"@),
                "src"@,
                at("audioresample"@),
                "sink"@,
            ) && contents::joins(all, at("audioresample"@), "src"@, at("audio_output"@), "sink"@)
                && contents::makes(all, at("cefdemux"@), "cefdemux"@) && contents::makes(
                all,
                at("audioconvert"@),
                "audioconvert"@,
            ) && contents::makes(all, at("audioresample"@), "audioresample"@) && contents::makes(
                all,
                at("audio_output"@),
                "identity"@,
            )
            &&& mode.video() ==> contents::joins(
                all,
                from,
                from_pad,
                at("videoconvert"@),
                "sink"@,
            ) && contents::joins(all, at("videoconvert"@), "src"@, at("video_output"@), "sink"@)
                && contents::makes(all, at("videoconvert"@), "videoconvert"@) && contents::makes(
                all,
                at("video_output"@),
                "identity"@,
            )
            &&& !mode.video() ==> contents::joins(all, from, from_pad, at("video_sink"@), "sink"@)
                && contents::makes(all, at("video_sink"@), "fakesink"@) && contents::sets(
                all,
                at("video_sink"@),
                "sync"@,
                SettingInfo::Bool(false),
            ) && contents::sets(all, at("video_sink"@), "async"@, SettingInfo::Bool(false))
            &&& all.links.len() == (match mode {
                StreamMode::Video => 3nat,
                StreamMode::Audio => 6,
                StreamMode::AudioVideo => 7,
            })
        }),
{
    broadcast use contents::what_plans_hold;

}

/// What the block does where nothing is set is what it offers as the default, and
/// the page can be changed while it runs.
pub proof fn page_defaults_are_what_is_done(p: PropertyMap)
    requires
        p.len() == 0,
    ensures
        html_input::page_definition().id == "builtin.html_input"@,
        html_input::page_definition().external_pads == html_input::page_pads(
            html_input::mode_under(p),
        ),
        html_input::page_definition().exposed_properties.len() == 6,
        contents::offers(
            html_input::page_definition(),
            "url"@,
            Some(PropertyTree::Text(html_input::page_url(p))),
            "cefsrc"@,
            "url"@,
            true,
        ),
        contents::offers(
            html_input::page_definition(),
            "width"@,
            Some(PropertyTree::UInt(html_input::positive_under(p, "width"@, 1920))),
            "_block"@,
            "width"@,
            false,
        ),
        contents::offers(
            html_input::page_definition(),
            "height"@,
            Some(PropertyTree::UInt(html_input::positive_under(p, "height"@, 1080))),
            "_block"@,
            "height"@,
            false,
        ),
        contents::offers(
            html_input::page_definition(),
            "framerate"@,
            Some(PropertyTree::UInt(html_input::positive_under(p, "framerate"@, 30))),
            "_block"@,
            "framerate"@,
            false,
        ),
        contents::offers(
            html_input::page_definition(),
            "stream_mode"@,
            Some(PropertyTree::Text("video"@)),
            "_block"@,
            "stream_mode"@,
            false,
        ),
        contents::offers(
            html_input::page_definition(),
            "remote_control"@,
            Some(PropertyTree::Bool(html_input::remote_control_allowed(p))),
            "_block"@,
            "remote_control"@,
            true,
        ),
{
    broadcast use contents::what_definitions_offer;

    assert(text::lookup(p, "url"@) is None);
    assert(text::lookup(p, "width"@) is None);
    assert(text::lookup(p, "height"@) is None);
    assert(text::lookup(p, "framerate"@) is None);
    assert(text::lookup(p, "stream_mode"@) is None);
    assert(text::lookup(p, "remote_control"@) is None);
}

/// A page may be driven only where the block says so itself.
pub proof fn pages_are_driven_only_where_allowed(p: PropertyMap)
    ensures
        html_input::remote_control_allowed(p) <==> text::lookup(p, "remote_control"@) == Some(
            PropertyTree::Bool(true),
        ),
{
}

/// Where one of the two elements of the browser is missing, the plugin is, and
/// where another element is missing it is that.
pub proof fn missing_browser_is_a_missing_plugin(factory: Seq<char>, reason: Seq<char>)
    ensures
        html_input::creation_failure(factory, reason) is MissingPlugin <==> factory == "cefsrc"@
            || factory == "cefdemux"@,
        html_input::creation_failure(factory, reason) matches BuildErrorInfo::MissingPlugin(m)
            ==> text::has_suffix(m, factory
            + "`, which ships in the strom-full image ("@ + reason + ")"@),
        html_input::creation_failure(factory, reason) matches BuildErrorInfo::ElementCreation(m)
            ==> text::has_prefix(m, "Failed to create "@ + factory) && text::has_suffix(
            m,
            ": "@ + reason,
        ),
{
    let start = "HTML sources need the gstcefsrc plugin for `"@;
    let tail = factory + "`, which ships in the strom-full image ("@ + reason + ")"@;
    let whole = start + factory + "`, which ships in the strom-full image ("@ + reason + ")"@;
    assert(whole =~= start + tail);
    assert(whole.skip(start.len() as int) =~= tail);
    reveal_strlit(" for the HTML input block: ");
    reveal_strlit(": ");
    let other = "Failed to create "@ + factory + " for the HTML input block: "@ + reason;
    let head = "Failed to create "@ + factory;
    let end = ": "@ + reason;
    assert(other.take(head.len() as int) =~= head);
    assert(other.skip(other.len() - end.len()) =~= end);
}

} // verus!
