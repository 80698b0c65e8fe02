//! Laws on the way from an output of a block to the endpoint that it is watched at,
//! and on what the control page of a vision mixer is told.

use crate::flow;
use crate::flow::{BlockInfo, Flow};
use crate::gst_launch;
use crate::json::JsonTree;
use crate::text;
use crate::whep;
use crate::whep::{LiveMixer, MixerSettings, PipPage};
use vstd::prelude::*;

verus! {

// ---------------------------------------------------------------------------
// Connections
// ---------------------------------------------------------------------------

/// Behind a pad are just the blocks that connections out of that pad lead to.
pub proof fn blocks_behind_a_pad_are_connected_to_it(
    links: Seq<(Seq<char>, Seq<char>)>,
    pad: Seq<char>,
    block: Seq<char>,
)
    ensures
        whep::blocks_behind_pad(links, pad).contains(block) <==> exists|k: int|
            0 <= k < links.len() && (#[trigger] links[k]).0 == pad && gst_launch::end_element(
                links[k].1,
            ) == block,
{
    lemma_behind(links, whep::from_pad(pad), block);
    if exists|k: int|
        0 <= k < links.len() && (#[trigger] links[k]).0 == pad && gst_launch::end_element(
            links[k].1,
        ) == block {
        let k = choose|k: int|
            0 <= k < links.len() && (#[trigger] links[k]).0 == pad && gst_launch::end_element(
                links[k].1,
            ) == block;
        assert(whep::from_pad(pad)(links[k]) == Some(block));
    }
}

/// Behind a block are just the blocks that connections out of any of its pads lead
/// to, whatever the pads are called.
pub proof fn blocks_behind_a_block_are_connected_to_its_pads(
    links: Seq<(Seq<char>, Seq<char>)>,
    from: Seq<char>,
    block: Seq<char>,
)
    ensures
        whep::blocks_behind(links, from).contains(block) <==> exists|k: int|
            0 <= k < links.len() && is_pad_of((#[trigger] links[k]).0, from)
                && gst_launch::end_element(links[k].1) == block,
{
    lemma_behind(links, whep::from_block(from), block);
    assert forall|k: int| 0 <= k < links.len() implies text::has_prefix(
        (#[trigger] links[k]).0,
        from + ":"@,
    ) == is_pad_of(links[k].0, from) by {
        lemma_pad_of(links[k].0, from);
    }
    if exists|k: int|
        0 <= k < links.len() && is_pad_of((#[trigger] links[k]).0, from)
            && gst_launch::end_element(links[k].1) == block {
        let k = choose|k: int|
            0 <= k < links.len() && is_pad_of((#[trigger] links[k]).0, from)
                && gst_launch::end_element(links[k].1) == block;
        assert(whep::from_block(from)(links[k]) == Some(block));
    }
}

/// A pad of a block: the block, a colon and the name of the pad.
pub open spec fn is_pad_of(pad: Seq<char>, block: Seq<char>) -> bool {
    exists|name: Seq<char>| pad == #[trigger] pad_of(block, name)
}

pub open spec fn pad_of(block: Seq<char>, name: Seq<char>) -> Seq<char> {
    block + seq![':'] + name
}

proof fn lemma_pad_of(pad: Seq<char>, block: Seq<char>)
    ensures
        text::has_prefix(pad, block + ":"@) == is_pad_of(pad, block),
{
    reveal_strlit(":");
    let head = block + ":"@;
    assert(":"@ =~= seq![':']);
    if text::has_prefix(pad, head) {
        let name = pad.skip(head.len() as int);
        assert(pad =~= pad.subrange(0, head.len() as int) + name);
        assert(pad =~= pad_of(block, name));
    }
    if is_pad_of(pad, block) {
        let name = choose|name: Seq<char>| pad == #[trigger] pad_of(block, name);
        assert(pad.subrange(0, head.len() as int) =~= head);
    }
}

proof fn lemma_behind(
    links: Seq<(Seq<char>, Seq<char>)>,
    pick: spec_fn((Seq<char>, Seq<char>)) -> Option<Seq<char>>,
    block: Seq<char>,
)
    ensures
        links.filter_map(pick).contains(block) <==> exists|k: int|
            0 <= k < links.len() && pick(#[trigger] links[k]) == Some(block),
{
    if links.filter_map(pick).contains(block) {
        links.lemma_filter_map_contains(pick, block);
        let l = choose|l: (Seq<char>, Seq<char>)| links.contains(l) && pick(l) == Some(block);
        let k = choose|k: int| 0 <= k < links.len() && links[k] == l;
        assert(pick(links[k]) == Some(block));
    }
    if exists|k: int| 0 <= k < links.len() && pick(#[trigger] links[k]) == Some(block) {
        let k = choose|k: int| 0 <= k < links.len() && pick(#[trigger] links[k]) == Some(block);
        crate::sequences::lemma_filter_map_holds(links, pick, k, links.len() as int);
        assert(links.take(links.len() as int) =~= links);
    }
}

/// A pad of a block is known to be of that block.
pub proof fn pads_name_their_block(block: Seq<char>, name: Seq<char>)
    requires
        !block.contains(':'),
        !name.contains(':'),
    ensures
        gst_launch::end_element(pad_of(block, name)) == block,
        gst_launch::end_element(block) == block,
{
    let parts = seq![block, name];
    assert forall|i: int| 0 <= i < parts.len() implies !(#[trigger] parts[i]).contains(':') by {}
    text::split_undoes_join(parts, ':');
    text::split_undoes_join(seq![block], ':');
    lemma_join_two(block, name);
}

proof fn lemma_join_two(block: Seq<char>, name: Seq<char>)
    ensures
        text::join(seq![block, name], seq![':']) == pad_of(block, name),
        text::join(seq![block], seq![':']) == block,
{
    reveal_with_fuel(text::join, 3);
    assert(seq![block, name].drop_last() =~= seq![block]);
    assert(seq![block].drop_last() =~= Seq::<Seq<char>>::empty());
    text::lemma_join_push(seq![block], seq![':'], name);
    assert(seq![block].push(name) =~= seq![block, name]);
}

// ---------------------------------------------------------------------------
// Endpoints
// ---------------------------------------------------------------------------

/// A block is a WHEP output where it is defined as one.
pub proof fn outputs_are_known_by_their_definition(blocks: Seq<BlockInfo>, k: int, id: Seq<char>)
    ensures
        0 <= k < blocks.len() && blocks[k].block_definition_id == "builtin.whep_output"@
            ==> whep::is_whep_output(blocks, blocks[k].id),
        (forall|j: int|
            0 <= j < blocks.len() && (#[trigger] blocks[j]).id == id
                ==> blocks[j].block_definition_id != "builtin.whep_output"@)
            ==> !whep::is_whep_output(blocks, id),
{
}

proof fn lemma_lookup_first<V>(entries: Seq<(Seq<char>, V)>, name: Seq<char>, i: int, k: int)
    requires
        0 <= i <= k < entries.len(),
        entries[k].0 == name,
        forall|j: int| 0 <= j < k ==> (#[trigger] entries[j]).0 != name,
    ensures
        text::lookup(entries.skip(i), name) == Some(entries[k].1),
    decreases k - i,
{
    text::lemma_lookup_skip(entries, name, i);
    if i < k {
        lemma_lookup_first(entries, name, i + 1, k);
    }
}

proof fn lemma_lookup_none<V>(entries: Seq<(Seq<char>, V)>, name: Seq<char>, i: int)
    requires
        0 <= i <= entries.len(),
        forall|j: int| 0 <= j < entries.len() ==> (#[trigger] entries[j]).0 != name,
    ensures
        text::lookup(entries.skip(i), name) is None,
    decreases entries.len() - i,
{
    if i < entries.len() {
        text::lemma_lookup_skip(entries, name, i);
        lemma_lookup_none(entries, name, i + 1);
    }
}

/// The endpoint of a block is the one that the first block with its id has.
pub proof fn endpoint_is_that_of_the_block(blocks: Seq<BlockInfo>, k: int)
    requires
        0 <= k < blocks.len(),
        forall|j: int| 0 <= j < k ==> (#[trigger] blocks[j]).id != blocks[k].id,
    ensures
        whep::endpoint_of(blocks, blocks[k].id) == blocks[k].whep_endpoint_id,
{
    let entries = blocks.map_values(|b: BlockInfo| (b.id, b));
    assert(entries[k] == (blocks[k].id, blocks[k]));
    assert forall|j: int| 0 <= j < k implies (#[trigger] entries[j]).0 != blocks[k].id by {
        assert(entries[j] == (blocks[j].id, blocks[j]));
        assert(blocks[j].id != blocks[k].id);
    }
    lemma_lookup_first(entries, blocks[k].id, 0, k);
    assert(entries.skip(0) =~= entries);
}

/// A block that is not there has no endpoint.
pub proof fn missing_blocks_have_no_endpoint(blocks: Seq<BlockInfo>, id: Seq<char>)
    requires
        forall|j: int| 0 <= j < blocks.len() ==> (#[trigger] blocks[j]).id != id,
    ensures
        whep::endpoint_of(blocks, id) is None,
{
    let entries = blocks.map_values(|b: BlockInfo| (b.id, b));
    assert forall|j: int| 0 <= j < entries.len() implies (#[trigger] entries[j]).0 != id by {
        assert(entries[j] == (blocks[j].id, blocks[j]));
        assert(blocks[j].id != id);
    }
    lemma_lookup_none(entries, id, 0);
    assert(entries.skip(0) =~= entries);
}

/// The path that an output is watched at is that of the endpoint which is reached
/// from its pad; it is empty where none is.
pub proof fn paths_are_those_of_reached_endpoints(
    flow: Flow,
    block_id: Seq<char>,
    pad_name: Seq<char>,
    endpoint: Seq<char>,
)
    ensures
        ({
            let blocks = flow::block_infos(flow.blocks@);
            let reached = whep::reached_output(
                blocks,
                flow::link_ends(flow.links@),
                pad_of(block_id, pad_name),
            );
            let path = whep::endpoint_path(flow, block_id, pad_name);
            &&& reached is None ==> path.len() == 0
            &&& reached matches Some(output) ==> (whep::endpoint_of(blocks, output) is None
                ==> path.len() == 0)
            &&& reached matches Some(output) ==> (whep::endpoint_of(blocks, output) == Some(
                endpoint,
            ) ==> path == "/whep/"@ + endpoint)
        }),
{
    reveal_strlit(":");
    assert(":"@ =~= seq![':']);
    assert(block_id + ":"@ + pad_name =~= pad_of(block_id, pad_name));
}

// ---------------------------------------------------------------------------
// The control page
// ---------------------------------------------------------------------------

proof fn lemma_mixer_position(blocks: Seq<BlockInfo>, requested: Option<Seq<char>>, i: int)
    requires
        0 <= i <= blocks.len(),
    ensures
        whep::mixer_position(blocks, requested, i) matches Some(k) ==> i <= k < blocks.len()
            && whep::is_mixer(blocks[k], requested) && forall|j: int|
            i <= j < k ==> !whep::is_mixer(#[trigger] blocks[j], requested),
        whep::mixer_position(blocks, requested, i) is None ==> forall|j: int|
            i <= j < blocks.len() ==> !whep::is_mixer(#[trigger] blocks[j], requested),
    decreases blocks.len() - i,
{
    if i < blocks.len() && !whep::is_mixer(blocks[i], requested) {
        lemma_mixer_position(blocks, requested, i + 1);
    }
}

/// A page is about the first vision mixer of the flow, or the one that is asked for
/// by its id, and about no other kind of block.
pub proof fn pages_are_about_vision_mixers(
    blocks: Seq<BlockInfo>,
    requested: Option<Seq<char>>,
    block: BlockInfo,
)
    ensures
        whep::is_mixer(block, None) <==> block.block_definition_id == "builtin.vision_mixer"@,
        requested is Some ==> (whep::is_mixer(block, requested) <==> block.block_definition_id
            == "builtin.vision_mixer"@ && block.id == requested->0),
        whep::mixer_position(blocks, requested, 0) matches Some(k) ==> 0 <= k < blocks.len()
            && whep::is_mixer(blocks[k], requested) && forall|j: int|
            0 <= j < k ==> !whep::is_mixer(#[trigger] blocks[j], requested),
        whep::mixer_position(blocks, requested, 0) is None ==> forall|j: int|
            0 <= j < blocks.len() ==> !whep::is_mixer(#[trigger] blocks[j], requested),
{
    lemma_mixer_position(blocks, requested, 0);
}

/// A page says which flow is not there, or that a flow has no vision mixer.
pub proof fn missing_subjects_are_told(
    flow: Flow,
    flow_id: Seq<char>,
    requested: Option<Seq<char>>,
)
    ensures
        whep::page_subject(None, flow_id, requested) == Err::<int, Seq<char>>(
            "<html><body>Flow "@ + flow_id + " not found</body></html>"@,
        ),
        whep::mixer_position(flow::block_infos(flow.blocks@), requested, 0) is None
            ==> whep::page_subject(Some(flow), flow_id, requested) == Err::<int, Seq<char>>(
            "<html><body>No vision mixer block found in this flow</body></html>"@,
        ),
        whep::mixer_position(flow::block_infos(flow.blocks@), requested, 0) matches Some(k)
            ==> whep::page_subject(Some(flow), flow_id, requested) == Ok::<int, Seq<char>>(k),
{
}

/// A template without the mark is shown as it is.
pub proof fn unmarked_template_is_kept(template: Seq<char>, mark: Seq<char>, value: Seq<char>)
    requires
        text::find_from(template, mark, 0) is None,
    ensures
        whep::filled_from(template, mark, value, 0) == template,
{
    assert(template.skip(0) =~= template);
}

/// In a template with the mark once, the value stands in its place and all else is
/// kept.
pub proof fn value_stands_in_place_of_the_mark(
    before: Seq<char>,
    mark: Seq<char>,
    after: Seq<char>,
    value: Seq<char>,
)
    requires
        mark.len() > 0,
        text::find_from(before + mark + after, mark, 0) == Some(before.len() as int),
        text::find_from(before + mark + after, mark, (before.len() + mark.len()) as int) is None,
    ensures
        whep::filled_from(before + mark + after, mark, value, 0) == before + value + after,
        whep::CONFIG_MARK@ == "{{VM_CONFIG_JSON}}"@,
{
    let template = before + mark + after;
    let end = (before.len() + mark.len()) as int;
    assert(template.subrange(0, before.len() as int) =~= before);
    assert(template.skip(end) =~= after);
    assert(whep::filled_from(template, mark, value, end) == after);
}

/// The page is told something under a name.
pub open spec fn tells(config: JsonTree, name: Seq<char>, value: JsonTree) -> bool {
    config matches JsonTree::Object(members) && members.contains((name, value))
}

proof fn lemma_tells(config: JsonTree, members: Seq<(Seq<char>, JsonTree)>, i: int)
    requires
        config == JsonTree::Object(members),
        0 <= i < members.len(),
    ensures
        tells(config, members[i].0, members[i].1),
{
}

/// A page is told which flow and block it is about, how many inputs, keys and tiles
/// there are, how the inputs are called, and how large programme is.
pub proof fn page_is_told_the_settings(
    flow_id: Seq<char>,
    block_id: Seq<char>,
    settings: MixerSettings,
    live: Option<LiveMixer>,
    input_resolutions: JsonTree,
)
    ensures
        ({
            let config = whep::page_config(flow_id, block_id, settings, live, input_resolutions);
            &&& config->Object_0.len() == 17
            &&& tells(config, "flow_id"@, JsonTree::Text(flow_id))
            &&& tells(config, "block_id"@, JsonTree::Text(block_id))
            &&& tells(config, "num_inputs"@, JsonTree::PosInt(settings.num_inputs as u64))
            &&& tells(config, "num_dsk_inputs"@, JsonTree::PosInt(settings.num_dsk_inputs as u64))
            &&& tells(config, "num_pips"@, JsonTree::PosInt(settings.num_pips as u64))
            &&& tells(config, "pgm_w"@, JsonTree::PosInt(settings.pgm_w as u64))
            &&& tells(config, "pgm_h"@, JsonTree::PosInt(settings.pgm_h as u64))
            &&& tells(config, "input_resolutions"@, input_resolutions)
            &&& tells(
                config,
                "input_labels"@,
                JsonTree::Array(settings.input_labels@.map_values(|s: String| JsonTree::Text(s@))),
            )
        }),
{
    let config = whep::page_config(flow_id, block_id, settings, live, input_resolutions);
    let members = config->Object_0;
    lemma_tells(config, members, 0);
    lemma_tells(config, members, 2);
    lemma_tells(config, members, 6);
    lemma_tells(config, members, 7);
    lemma_tells(config, members, 8);
    lemma_tells(config, members, 9);
    lemma_tells(config, members, 10);
    lemma_tells(config, members, 12);
    lemma_tells(config, members, 14);
}

/// The number of an input or a tile, or nothing where there is none.
pub open spec fn number_or_nothing(n: Option<usize>) -> JsonTree {
    match n {
        Some(n) => JsonTree::PosInt(n as u64),
        None => JsonTree::Null,
    }
}

/// The page of a mixer that runs is told what the mixer does: what is on programme
/// and on preview, which keys are on, and how opaque the overlay is.
pub proof fn page_of_a_running_mixer_is_told_its_state(
    flow_id: Seq<char>,
    block_id: Seq<char>,
    settings: MixerSettings,
    state: LiveMixer,
    input_resolutions: JsonTree,
)
    ensures
        ({
            let config = whep::page_config(
                flow_id,
                block_id,
                settings,
                Some(state),
                input_resolutions,
            );
            &&& tells(config, "initial_pgm"@, number_or_nothing(state.pgm_input))
            &&& tells(config, "initial_pvw"@, number_or_nothing(state.pvw_input))
            &&& tells(config, "pgm_pip"@, number_or_nothing(state.pgm_pip))
            &&& tells(config, "pvw_pip"@, number_or_nothing(state.pvw_pip))
            &&& tells(config, "ftb_active"@, JsonTree::Bool(state.ftb_active))
            &&& tells(
                config,
                "dsk_states"@,
                JsonTree::Array(state.dsk_enabled@.map_values(|b: bool| JsonTree::Bool(b))),
            )
            &&& tells(config, "overlay_alpha"@, JsonTree::Float(state.overlay_alpha@))
            &&& tells(
                config,
                "pips"@,
                JsonTree::Array(state.pips@.map_values(|p: PipPage| p@)),
            )
        }),
{
    let config = whep::page_config(flow_id, block_id, settings, Some(state), input_resolutions);
    let members = config->Object_0;
    lemma_tells(config, members, 1);
    lemma_tells(config, members, 3);
    lemma_tells(config, members, 4);
    lemma_tells(config, members, 5);
    lemma_tells(config, members, 11);
    lemma_tells(config, members, 13);
    lemma_tells(config, members, 15);
    lemma_tells(config, members, 16);
}

/// The page of a mixer that does not run is told what its properties say: the inputs
/// that it starts with, all keys on, an opaque overlay, and nothing faded.
pub proof fn page_of_a_stopped_mixer_is_told_its_start(
    flow_id: Seq<char>,
    block_id: Seq<char>,
    settings: MixerSettings,
    input_resolutions: JsonTree,
    i: int,
)
    ensures
        ({
            let config = whep::page_config(flow_id, block_id, settings, None, input_resolutions);
            &&& tells(config, "initial_pgm"@, JsonTree::PosInt(settings.initial_pgm as u64))
            &&& tells(config, "initial_pvw"@, JsonTree::PosInt(settings.initial_pvw as u64))
            &&& tells(config, "pgm_pip"@, JsonTree::Null)
            &&& tells(config, "pvw_pip"@, JsonTree::Null)
            &&& tells(config, "ftb_active"@, JsonTree::Bool(false))
            &&& tells(config, "overlay_alpha"@, JsonTree::Float("1.0"@))
            &&& tells(
                config,
                "pips"@,
                JsonTree::Array(settings.pips@.map_values(|p: PipPage| p@)),
            )
            &&& config->Object_0[1].0 == "dsk_states"@
            &&& config->Object_0[1].1->Array_0.len() == settings.num_dsk_inputs
            &&& 0 <= i < settings.num_dsk_inputs ==> config->Object_0[1].1->Array_0[i]
                == JsonTree::Bool(true)
        }),
{
    let config = whep::page_config(flow_id, block_id, settings, None, input_resolutions);
    let members = config->Object_0;
    lemma_tells(config, members, 3);
    lemma_tells(config, members, 4);
    lemma_tells(config, members, 5);
    lemma_tells(config, members, 11);
    lemma_tells(config, members, 13);
    lemma_tells(config, members, 15);
    lemma_tells(config, members, 16);
}

/// A tile is told with what is behind it, its zones and how they are drawn.
pub proof fn tiles_are_told_whole(pip: PipPage)
    ensures
        tells(pip@, "bg"@, number_or_nothing(pip.bg)),
        tells(pip@, "zones"@, pip.zones@),
        tells(pip@, "transforms"@, pip.transforms@),
        pip@->Object_0.len() == 3,
{
    let members = pip@->Object_0;
    lemma_tells(pip@, members, 0);
    lemma_tells(pip@, members, 1);
    lemma_tells(pip@, members, 2);
}

/// What is found from some blocks is what is found where others come after them:
/// blocks, and all that is behind them, are looked at before those beside them. A
/// block that is itself a WHEP output is found at once.
pub proof fn blocks_are_looked_at_in_order(
    blocks: Seq<BlockInfo>,
    links: Seq<(Seq<char>, Seq<char>)>,
    ahead: Seq<Seq<char>>,
    beside: Seq<Seq<char>>,
    visited: Set<Seq<char>>,
)
    ensures
        whep::whep_output_behind(blocks, links, ahead, visited) is Some
            ==> whep::whep_output_behind(blocks, links, ahead + beside, visited)
            == whep::whep_output_behind(blocks, links, ahead, visited),
        ahead.len() > 0 && whep::is_whep_output(blocks, ahead[0]) && whep::is_led_to(
            links,
            ahead[0],
        ) && !visited.contains(ahead[0]) ==> whep::whep_output_behind(blocks, links, ahead, visited)
            == Some(ahead[0]),
    decreases whep::unvisited_links(links, visited), ahead.len(),
{
    if ahead.len() > 0 {
        let block = ahead[0];
        let rest = ahead.skip(1);
        let all = ahead + beside;
        assert(all[0] == block);
        assert(all.skip(1) =~= rest + beside);
        if visited.contains(block) || !whep::is_led_to(links, block) {
            blocks_are_looked_at_in_order(blocks, links, rest, beside, visited);
        } else if !whep::is_whep_output(blocks, block) {
            whep::lemma_unvisited_shrinks(links, visited, block);
            let behind = whep::blocks_behind(links, block);
            assert(behind + (rest + beside) =~= (behind + rest) + beside);
            blocks_are_looked_at_in_order(
                blocks,
                links,
                behind + rest,
                beside,
                visited.insert(block),
            );
        }
    }
}

} // verus!
