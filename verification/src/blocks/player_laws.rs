//! How a playlist is played: laws on the order of the files, on what a player is
//! built of, and on what it reports.

use crate::blocks::contents;
use crate::blocks::definition::MediaType;
use crate::blocks::mediaplayer;
use crate::blocks::mediaplayer::{MediaStream, PipelineState, PlayError, PlayerInfo};
use crate::blocks::plan;
use crate::blocks::plan::SettingInfo;
use crate::ids;
use crate::json;
use crate::json::JsonTree;
use crate::properties::{PropertyMap, PropertyTree};
use crate::text;
use vstd::prelude::*;

verus! {

/// The player after going on `n` times.
pub open spec fn after_steps(s: PlayerInfo, n: nat) -> PlayerInfo
    decreases n,
{
    if n == 0 {
        s
    } else {
        let before = after_steps(s, (n - 1) as nat);
        mediaplayer::moved(before, before.next_index())
    }
}

proof fn lemma_steps(s: PlayerInfo, n: nat)
    requires
        s.index == 0,
        n < s.playlist.len(),
    ensures
        after_steps(s, n) == s.at(n as int),
    decreases n,
{
    if n > 0 {
        lemma_steps(s, (n - 1) as nat);
    }
}

/// From the first file on every file is reached, each as many steps on as files
/// stand before it. After the last one a playlist that starts over is at the
/// first one again, and any other stays at the last.
pub proof fn every_file_is_reached(s: PlayerInfo, n: nat)
    requires
        s.index == 0,
        n < s.playlist.len(),
    ensures
        after_steps(s, n).index == n,
        after_steps(s, n).playlist == s.playlist,
        after_steps(s, s.playlist.len()).index == (if s.looping {
            0
        } else {
            s.playlist.len() - 1
        }),
{
    lemma_steps(s, n);
    lemma_steps(s, (s.playlist.len() - 1) as nat);
}

/// Going on leads to the file behind the current one, and going back to the one
/// before it. There is nowhere to go on to from the last file, and nowhere to go
/// back to from the first, unless the playlist starts over.
pub proof fn moves_go_one_file_on_or_back(s: PlayerInfo)
    requires
        0 <= s.index < s.playlist.len(),
    ensures
        s.index + 1 < s.playlist.len() ==> mediaplayer::file_to_load(s, s.next_index()) == Ok::<
            Seq<char>,
            PlayError,
        >(s.playlist[s.index + 1]),
        s.index > 0 ==> mediaplayer::file_to_load(s, s.previous_index()) == Ok::<
            Seq<char>,
            PlayError,
        >(s.playlist[s.index - 1]),
        s.index == s.playlist.len() - 1 && s.looping ==> mediaplayer::file_to_load(
            s,
            s.next_index(),
        ) == Ok::<Seq<char>, PlayError>(s.playlist[0]),
        s.index == 0 && s.looping ==> mediaplayer::file_to_load(s, s.previous_index()) == Ok::<
            Seq<char>,
            PlayError,
        >(s.playlist[s.playlist.len() - 1]),
        s.index == s.playlist.len() - 1 && !s.looping ==> s.next_index() == Err::<int, PlayError>(
            PlayError::AtLastFile,
        ),
        s.index == 0 && !s.looping ==> s.previous_index() == Err::<int, PlayError>(
            PlayError::AtFirstFile,
        ),
{
}

/// A file that is asked for by its index is the one that is loaded. An index behind
/// the last file is refused with the number of files.
pub proof fn asked_files_are_loaded(s: PlayerInfo, index: usize)
    ensures
        index < s.playlist.len() ==> mediaplayer::file_to_load(s, s.asked_index(index)) == Ok::<
            Seq<char>,
            PlayError,
        >(s.playlist[index as int]) && mediaplayer::moved(s, s.asked_index(index)).index == index,
        index >= s.playlist.len() ==> s.asked_index(index) == Err::<int, PlayError>(
            PlayError::OutOfRange(index, s.playlist.len() as usize),
        ),
{
}

/// Without files there is nowhere to go.
pub proof fn empty_playlists_lead_nowhere(s: PlayerInfo)
    requires
        s.playlist.len() == 0,
    ensures
        s.next_index() == Err::<int, PlayError>(PlayError::EmptyPlaylist),
        s.previous_index() == Err::<int, PlayError>(PlayError::EmptyPlaylist),
{
}

/// A move changes which file is the current one and nothing else. A player that
/// has nowhere to go stays as it is.
pub proof fn moves_change_the_current_file_alone(s: PlayerInfo, to: Result<int, PlayError>)
    ensures
        mediaplayer::moved(s, to) == (PlayerInfo { index: mediaplayer::moved(s, to).index, ..s }),
        to is Err ==> mediaplayer::moved(s, to) == s,
        to matches Ok(i) ==> mediaplayer::moved(s, to).index == i,
        to is Err ==> mediaplayer::file_to_load(s, to) == Err::<Seq<char>, PlayError>(to->Err_0),
{
}

/// Why a file is not played is told in words.
pub proof fn refused_moves_are_told_in_words(index: usize, files: usize)
    ensures
        PlayError::OutOfRange(index, files).message() == "Index "@ + text::decimal(index as nat)
            + " out of range (playlist has "@ + text::decimal(files as nat) + " files)"@,
        PlayError::EmptyPlaylist.message() == "Playlist is empty"@,
        PlayError::AtLastFile.message() == "Already at last file"@,
        PlayError::AtFirstFile.message() == "Already at first file"@,
        PlayError::NoFile.message() == "No file to load"@,
{
}

/// An address is played from as it is, and a path is made the address of a file: in
/// full where it could be resolved, else as it was given. So what is played from
/// is always an address.
pub proof fn files_are_played_from_addresses(file: Seq<char>, path: Seq<char>)
    ensures
        text::has_prefix(file, "file://"@) || text::has_prefix(file, "http://"@)
            || text::has_prefix(file, "https://"@) ==> mediaplayer::file_uri(file, Some(path))
            == file && mediaplayer::file_uri(file, None) == file,
        !text::has_prefix(file, "file://"@) && !text::has_prefix(file, "http://"@)
            && !text::has_prefix(file, "https://"@) ==> mediaplayer::file_uri(file, Some(path))
            == "file://"@ + path && mediaplayer::file_uri(file, None) == "file://"@ + file,
        mediaplayer::file_uri(mediaplayer::file_uri(file, Some(path)), None)
            == mediaplayer::file_uri(file, Some(path)),
{
    let made = "file://"@ + path;
    assert(made.subrange(0, "file://"@.len() as int) =~= "file://"@);
}

/// The first video and the first audio of a file are connected, each as what it is,
/// and nothing else.
pub proof fn first_streams_are_connected(s: PlayerInfo, caps_name: Seq<char>)
    ensures
        mediaplayer::stream_for(s, caps_name) == Some(MediaStream::Video) <==> text::has_prefix(
            caps_name,
            "video/"@,
        ) && !s.video_linked,
        mediaplayer::stream_for(s, caps_name) == Some(MediaStream::Audio) <==> text::has_prefix(
            caps_name,
            "audio/"@,
        ) && !s.audio_linked,
{
    reveal_strlit("video/");
    reveal_strlit("audio/");
    if text::has_prefix(caps_name, "video/"@) && text::has_prefix(caps_name, "audio/"@) {
        assert(caps_name.subrange(0, 6)[0] == 'v');
        assert(caps_name.subrange(0, 6)[0] == 'a');
    }
}

/// What a pipeline does is told in one of four words.
pub proof fn pipeline_states_have_words()
    ensures
        mediaplayer::state_word(PipelineState::Playing) == "playing"@,
        mediaplayer::state_word(PipelineState::Paused) == "paused"@,
        mediaplayer::state_word(PipelineState::Ready) == "stopped"@,
        mediaplayer::state_word(PipelineState::Null) == "stopped"@,
        mediaplayer::state_word(PipelineState::Pending) == "unknown"@,
{
}

/// The files of a player are those of the list that is set, in its order; a
/// document that is not a list of texts is no playlist.
pub proof fn playlist_is_the_list_that_is_set(p: PropertyMap, s: Seq<char>, items: Seq<JsonTree>)
    ensures
        text::lookup(p, "playlist"@) == Some(PropertyTree::Text(s)) && json::json_document(s)
            == Some(JsonTree::Array(items)) && (forall|i: int|
            0 <= i < items.len() ==> (#[trigger] items[i]) is Text)
            ==> mediaplayer::playlist_under(p).len() == items.len() && forall|i: int|
            0 <= i < items.len() ==> JsonTree::Text(#[trigger] mediaplayer::playlist_under(p)[i])
                == items[i],
        text::lookup(p, "playlist"@) == Some(PropertyTree::Text(s)) && json::json_document(s)
            == Some(JsonTree::Array(items)) && (exists|i: int|
            0 <= i < items.len() && !((#[trigger] items[i]) is Text))
            ==> mediaplayer::playlist_under(p).len() == 0,
        text::lookup(p, "playlist"@) == Some(PropertyTree::Text(s)) && !(json::json_document(s)
            matches Some(JsonTree::Array(_))) ==> mediaplayer::playlist_under(p).len() == 0,
        !(text::lookup(p, "playlist"@) matches Some(PropertyTree::Text(_)))
            ==> mediaplayer::playlist_under(p).len() == 0,
{
}

/// A player starts with the first file, unpaused and with nothing connected, and
/// starts its playlist over unless that is switched off. It belongs to the flow
/// and the block that it was built for.
pub proof fn players_start_with_the_first_file(
    instance: Seq<char>,
    p: PropertyMap,
    playlist: Seq<Seq<char>>,
    flow_id: u128,
    unique: Seq<char>,
)
    ensures
        ({
            let s = mediaplayer::fresh_player(instance, p, playlist, flow_id, unique);
            &&& s.index == 0
            &&& s.playlist == playlist
            &&& !s.paused
            &&& !s.video_linked
            &&& !s.audio_linked
            &&& s.looping <==> text::lookup(p, "loop_playlist"@) != Some(PropertyTree::Bool(false))
            &&& s.block_id == instance
            &&& s.flow_id == flow_id
            &&& s.instance_id == unique
        }),
{
}

/// A player belongs to the flow that is named where that is an id, and its position
/// is told as often as is set, else every two hundred milliseconds.
pub proof fn players_belong_to_the_named_flow(p: PropertyMap, s: Seq<char>, n: i64)
    ensures
        text::lookup(p, "_flow_id"@) == Some(PropertyTree::Text(s)) && ids::uuid_number(s) is Some
            ==> Some(mediaplayer::flow_under(p)) == ids::uuid_number(s),
        text::lookup(p, "_flow_id"@) == Some(PropertyTree::Text(s)) && ids::uuid_number(s) is None
            ==> mediaplayer::flow_under(p) == 0,
        !(text::lookup(p, "_flow_id"@) matches Some(PropertyTree::Text(_)))
            ==> mediaplayer::flow_under(p) == 0,
        text::lookup(p, "position_update_interval"@) == Some(PropertyTree::Int(n)) && n >= 0
            ==> mediaplayer::interval_under(p) == n,
        !(text::lookup(p, "position_update_interval"@) matches Some(PropertyTree::Int(_)))
            ==> mediaplayer::interval_under(p) == 200,
{
}

/// A player decodes the file that it starts with, where there is one, and converts
/// each of its streams.
pub proof fn player_decodes_its_first_file(instance: Seq<char>, uri: Option<Seq<char>>)
    ensures
        contents::makes(mediaplayer::player_plan(instance, uri), plan::member(instance, "uridecodebin"@), "uridecodebin"@),
        contents::makes(mediaplayer::player_plan(instance, uri), plan::member(instance, "videoconvert"@), "videoconvert"@),
        contents::makes(mediaplayer::player_plan(instance, uri), plan::member(instance, "videoscale"@), "videoscale"@),
        contents::makes(mediaplayer::player_plan(instance, uri), plan::member(instance, "audioconvert"@), "audioconvert"@),
        contents::makes(mediaplayer::player_plan(instance, uri), plan::member(instance, "audioresample"@), "audioresample"@),
        contents::joins(
            mediaplayer::player_plan(instance, uri),
            plan::member(instance, "videoconvert"@),
            "src"@,
            plan::member(instance, "videoscale"@),
            "sink"@,
        ),
        contents::joins(
            mediaplayer::player_plan(instance, uri),
            plan::member(instance, "audioconvert"@),
            "src"@,
            plan::member(instance, "audioresample"@),
            "sink"@,
        ),
        uri is Some ==> contents::sets(
            mediaplayer::player_plan(instance, uri),
            plan::member(instance, "uridecodebin"@),
            "uri"@,
            SettingInfo::Text(uri->0),
        ),
        uri is None ==> mediaplayer::player_plan(instance, uri).elements[0].settings.len() == 0,
        mediaplayer::player_plan(instance, uri).elements.len() == 5,
        mediaplayer::player_plan(instance, uri).links.len() == 2,
{
    broadcast use contents::what_plans_hold;

}

/// What the block does where nothing is set is what it offers as the default. Each
/// output is that of its medium.
pub proof fn player_defaults_are_what_is_done(p: PropertyMap)
    requires
        p.len() == 0,
    ensures
        mediaplayer::player_definition().id == "builtin.media_player"@,
        mediaplayer::player_definition().exposed_properties.len() == 2,
        mediaplayer::player_definition().external_pads.inputs.len() == 0,
        mediaplayer::player_definition().external_pads.outputs.len() == 2,
        contents::shows(
            mediaplayer::player_definition().external_pads.outputs,
            "video_out"@,
            MediaType::Video,
            "videoscale"@,
            "src"@,
        ),
        contents::shows(
            mediaplayer::player_definition().external_pads.outputs,
            "audio_out"@,
            MediaType::Audio,
            "audioresample"@,
            "src"@,
        ),
        contents::offers(
            mediaplayer::player_definition(),
            "loop_playlist"@,
            Some(PropertyTree::Bool(true)),
            "_block"@,
            "loop_playlist"@,
            false,
        ),
        contents::offers(
            mediaplayer::player_definition(),
            "position_update_interval"@,
            Some(PropertyTree::Int(mediaplayer::interval_under(p) as i64)),
            "_block"@,
            "position_update_interval"@,
            false,
        ),
{
    broadcast use contents::what_definitions_offer;

    assert(text::lookup(p, "position_update_interval"@) is None);
    assert(mediaplayer::player_definition().external_pads.outputs[0].name == "video_out"@);
    assert(mediaplayer::player_definition().external_pads.outputs[1].name == "audio_out"@);
}

} // verus!
